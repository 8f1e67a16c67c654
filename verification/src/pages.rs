//! The pages and assets that phones load.
use vstd::prelude::*;
use crate::text::{chars_of, string_of, extend_chars, replace_first, replace_all, replace_first_exec,
    replace_all_exec, trim_end_char, trim_end_matching, has_suffix, ends_with, same_chars};
use crate::num::{decimal, decimal_exec};
use crate::sizefmt::{size_text, fmt_size};
use crate::shares::{ShareStore, FileEntry, texts};
use crate::outside::{guessed_mime, mime_guess_first, portable_name};
use crate::route::{route_of, RouteView};
use crate::text::{has_prefix, contains_seq, occurs_at, split_on, lemma_split_two, lemma_split_on_absent};

verus! {

/// The script that tells a page its language and language mode, placed
/// before `</head>`.
pub open spec fn lang_script(lang: Seq<char>, mode: Seq<char>) -> Seq<char> {
    "<script>window.__SU_LANG=\""@ + lang + "\";window.__SU_LANG_MODE=\""@ + mode + "\"</script></head>"@
}

/// The page with the language script inserted at its first `</head>`.
pub open spec fn with_lang(html: Seq<char>, lang: Seq<char>, mode: Seq<char>) -> Seq<char> {
    replace_first(html, "</head>"@, lang_script(lang, mode))
}

/// Inserts the language script before the first `</head>` of a page; a
/// page without `</head>` is left as it is.
pub fn inject_lang(html: &str, lang: &str, mode: &str) -> (r: String)
    ensures
        r@ == with_lang(html@, lang@, mode@),
{
    let mut script = chars_of("<script>window.__SU_LANG=\"");
    extend_chars(&mut script, &chars_of(lang));
    extend_chars(&mut script, &chars_of("\";window.__SU_LANG_MODE=\""));
    extend_chars(&mut script, &chars_of(mode));
    extend_chars(&mut script, &chars_of("\"</script></head>"));
    let out = replace_first_exec(&chars_of(html), &chars_of("</head>"), &script);
    string_of(&out)
}

/// The download page of one file: the language script, then the name, the
/// size text and the download address filled in for `__NAME__`, `__SIZE__`
/// and `__URL__`, in that order.
pub open spec fn download_page(
    template: Seq<char>,
    lang: Seq<char>,
    mode: Seq<char>,
    name: Seq<char>,
    size: u64,
    url: Seq<char>,
) -> Seq<char> {
    replace_all(
        replace_all(replace_all(with_lang(template, lang, mode), "__NAME__"@, name), "__SIZE__"@, size_text(size as nat)),
        "__URL__"@,
        url,
    )
}

pub fn render_download_page(template: &str, lang: &str, mode: &str, name: &str, size: u64, url: &str) -> (r: String)
    ensures
        r@ == download_page(template@, lang@, mode@, name@, size, url@),
{
    let page = inject_lang(template, lang, mode);
    proof {
        reveal_strlit("__NAME__");
        reveal_strlit("__SIZE__");
        reveal_strlit("__URL__");
    }
    let a = replace_all_exec(&chars_of(page.as_str()), &chars_of("__NAME__"), &chars_of(name));
    let sz = fmt_size(size);
    let b = replace_all_exec(&a, &chars_of("__SIZE__"), &chars_of(sz.as_str()));
    let c = replace_all_exec(&b, &chars_of("__URL__"), &chars_of(url));
    string_of(&c)
}

/// `/d/<id>?dl=1`: the address that downloads a shared file.
pub open spec fn download_url(id: Seq<char>) -> Seq<char> {
    "/d/"@ + id + "?dl=1"@
}

pub fn download_url_exec(id: &str) -> (r: String)
    ensures
        r@ == download_url(id@),
{
    let mut out = chars_of("/d/");
    extend_chars(&mut out, &chars_of(id));
    extend_chars(&mut out, &chars_of("?dl=1"));
    string_of(&out)
}

/// `bytes <start>-<end>/<total>`: the `Content-Range` of a partial answer.
pub open spec fn content_range_text(start: u64, end: u64, total: u64) -> Seq<char> {
    "bytes "@ + decimal(start as nat) + seq!['-'] + decimal(end as nat) + seq!['/'] + decimal(total as nat)
}

pub fn content_range(start: u64, end: u64, total: u64) -> (r: String)
    ensures
        r@ == content_range_text(start, end, total),
{
    let mut out = chars_of("bytes ");
    extend_chars(&mut out, &decimal_exec(start));
    out.push('-');
    extend_chars(&mut out, &decimal_exec(end));
    out.push('/');
    extend_chars(&mut out, &decimal_exec(total));
    string_of(&out)
}

/// The shared file that a `/d/` or `/v/` id names (trailing `/` ignored).
pub fn shared_file_for(store: &ShareStore, raw_id: &str) -> (r: Option<FileEntry>)
    ensures
        ({
            let sid = trim_end_char(raw_id@, '/');
            &&& r is Some <==> store.file_map().contains_key(sid)
            &&& r matches Some(e) ==> e == store.file_map()[sid]
        }),
{
    let sid = string_of(&trim_end_matching(&chars_of(raw_id), '/'));
    match store.files.get(&sid) {
        Some(e) => Some(FileEntry { name: e.name.clone(), path: e.path.clone(), size: e.size }),
        None => None,
    }
}

/// The id of a `/d/` request with trailing `/` removed.
pub fn share_id(raw_id: &str) -> (r: String)
    ensures
        r@ == trim_end_char(raw_id@, '/'),
{
    string_of(&trim_end_matching(&chars_of(raw_id), '/'))
}

/// One file on a bundle's page.
pub struct BundleItem {
    pub id: String,
    pub name: String,
    pub size: u64,
}

/// What a bundle's page shows.
pub enum BundlePage {
    /// No such bundle: 404.
    NotFound,
    /// A bundle of one shared file: that file's download page.
    Single { name: String, size: u64, url: String },
    /// Otherwise: a card per file still shared; `count` is the bundle's size.
    Multi { items: Vec<BundleItem>, count: usize },
}

/// The cards of a bundle's still-shared files, in bundle order.
pub open spec fn present_items(fm: Map<Seq<char>, FileEntry>, fids: Seq<Seq<char>>) -> Seq<(Seq<char>, Seq<char>, u64)>
    decreases fids.len(),
{
    if fids.len() == 0 {
        Seq::empty()
    } else {
        let rest = present_items(fm, fids.drop_last());
        let k = fids.last();
        if fm.contains_key(k) {
            rest.push((k, fm[k].name@, fm[k].size))
        } else {
            rest
        }
    }
}

pub open spec fn item_view(i: BundleItem) -> (Seq<char>, Seq<char>, u64) {
    (i.id@, i.name@, i.size)
}

/// Chooses what the page of bundle `bundle_id` shows.
pub fn bundle_page_plan(store: &ShareStore, bundle_id: &String) -> (r: BundlePage)
    ensures
        !store.bundle_map().contains_key(bundle_id@) ==> r is NotFound,
        store.bundle_map().contains_key(bundle_id@) ==> ({
            let fids = texts(store.bundle_map()[bundle_id@]@);
            if fids.len() == 1 && store.file_map().contains_key(fids[0]) {
                r matches BundlePage::Single { name, size, url } && name@ == store.file_map()[fids[0]].name@
                    && size == store.file_map()[fids[0]].size && url@ == download_url(fids[0])
            } else {
                r matches BundlePage::Multi { items, count } && count == fids.len()
                    && items@.map_values(|i: BundleItem| item_view(i)) == present_items(store.file_map(), fids)
            }
        }),
{
    let fids = match store.bundles.get(bundle_id) {
        None => { return BundlePage::NotFound; },
        Some(f) => f,
    };
    let ghost ks = texts(fids@);
    let ghost fm = store.file_map();
    if fids.len() == 1 {
        if let Some(e) = store.files.get(&fids[0]) {
            let url = download_url_exec(fids[0].as_str());
            return BundlePage::Single { name: e.name.clone(), size: e.size, url };
        }
    }
    let mut items: Vec<BundleItem> = Vec::new();
    let mut i: usize = 0;
    while i < fids.len()
        invariant
            i <= fids.len(),
            fm == store.file_map(),
            ks == texts(fids@),
            items@.len() == present_items(fm, ks.take(i as int)).len(),
            items@.map_values(|x: BundleItem| item_view(x)) == present_items(fm, ks.take(i as int)),
        decreases fids.len() - i,
    {
        assert(ks.take(i + 1).drop_last() =~= ks.take(i as int));
        assert(ks.take(i + 1).last() == fids@[i as int]@);
        let ghost before = items@;
        match store.files.get(&fids[i]) {
            Some(e) => {
                items.push(BundleItem { id: fids[i].clone(), name: e.name.clone(), size: e.size });
                assert(items@.map_values(|x: BundleItem| item_view(x)) =~= present_items(fm, ks.take(i + 1))) by {
                    assert(items@ == before.push(items@[before.len() as int]));
                }
            },
            None => {},
        }
        i = i + 1;
    }
    assert(ks.take(i as int) =~= ks);
    BundlePage::Multi { items, count: fids.len() }
}

/// The card of one file on a bundle's page (the name is inserted as it is).
pub open spec fn item_card(id: Seq<char>, name: Seq<char>, size: u64) -> Seq<char> {
    "<label class=\"fcard\"><input type=\"checkbox\" class=\"fcb\" data-url=\"/d/"@ + id
        + "?dl=1\" data-name=\""@ + name
        + "\"><span class=\"fcard-ck\"><i class=\"fa-regular fa-circle\"></i><i class=\"fa-solid fa-circle-check\"></i></span><div class=\"fcard-icon\"><i class=\"fa-solid fa-file\"></i></div><div class=\"fcard-name\">"@
        + name + "</div><div class=\"fcard-size\">"@ + size_text(size as nat) + "</div></label>"@
}

pub open spec fn item_cards(items: Seq<(Seq<char>, Seq<char>, u64)>) -> Seq<char>
    decreases items.len(),
{
    if items.len() == 0 {
        Seq::empty()
    } else {
        item_cards(items.drop_last()) + item_card(items.last().0, items.last().1, items.last().2)
    }
}

fn item_card_exec(it: &BundleItem) -> (r: Vec<char>)
    ensures
        r@ == item_card(it.id@, it.name@, it.size),
{
    let mut out = chars_of("<label class=\"fcard\"><input type=\"checkbox\" class=\"fcb\" data-url=\"/d/");
    extend_chars(&mut out, &chars_of(it.id.as_str()));
    extend_chars(&mut out, &chars_of("?dl=1\" data-name=\""));
    extend_chars(&mut out, &chars_of(it.name.as_str()));
    extend_chars(&mut out, &chars_of("\"><span class=\"fcard-ck\"><i class=\"fa-regular fa-circle\"></i><i class=\"fa-solid fa-circle-check\"></i></span><div class=\"fcard-icon\"><i class=\"fa-solid fa-file\"></i></div><div class=\"fcard-name\">"));
    extend_chars(&mut out, &chars_of(it.name.as_str()));
    extend_chars(&mut out, &chars_of("</div><div class=\"fcard-size\">"));
    let sz = fmt_size(it.size);
    extend_chars(&mut out, &chars_of(sz.as_str()));
    extend_chars(&mut out, &chars_of("</div></label>"));
    out
}

/// The page of a bundle of several files: the language script, the cards
/// for `{items}` and the file count for `__CNT__`.
pub open spec fn bundle_multi_page(
    template: Seq<char>,
    lang: Seq<char>,
    mode: Seq<char>,
    items: Seq<(Seq<char>, Seq<char>, u64)>,
    count: usize,
) -> Seq<char> {
    replace_all(replace_all(with_lang(template, lang, mode), "{items}"@, item_cards(items)), "__CNT__"@, decimal(count as nat))
}

pub fn render_bundle_multi(template: &str, lang: &str, mode: &str, items: &Vec<BundleItem>, count: usize) -> (r: String)
    ensures
        r@ == bundle_multi_page(template@, lang@, mode@, items@.map_values(|x: BundleItem| item_view(x)), count),
{
    let ghost iv = items@.map_values(|x: BundleItem| item_view(x));
    let mut cards: Vec<char> = Vec::new();
    let mut i: usize = 0;
    while i < items.len()
        invariant
            i <= items.len(),
            iv == items@.map_values(|x: BundleItem| item_view(x)),
            cards@ == item_cards(iv.take(i as int)),
        decreases items.len() - i,
    {
        assert(iv.take(i + 1).drop_last() =~= iv.take(i as int));
        let c = item_card_exec(&items[i]);
        extend_chars(&mut cards, &c);
        i = i + 1;
    }
    assert(iv.take(i as int) =~= iv);
    let page = inject_lang(template, lang, mode);
    proof {
        reveal_strlit("{items}");
        reveal_strlit("__CNT__");
    }
    let a = replace_all_exec(&chars_of(page.as_str()), &chars_of("{items}"), &cards);
    let b = replace_all_exec(&a, &chars_of("__CNT__"), &decimal_exec(count as u64));
    string_of(&b)
}

/// The icon-font assets served under `/fonts/`.
#[derive(Debug, Clone, Copy, PartialEq, Eq)]
pub enum FontAsset {
    AllMinCss,
    SolidWoff2,
    RegularWoff2,
    BrandsWoff2,
}

pub open spec fn font_asset_of(path: Seq<char>) -> Option<FontAsset> {
    if path == "all.min.css"@ {
        Some(FontAsset::AllMinCss)
    } else if path == "fa-solid-900.woff2"@ {
        Some(FontAsset::SolidWoff2)
    } else if path == "fa-regular-400.woff2"@ {
        Some(FontAsset::RegularWoff2)
    } else if path == "fa-brands-400.woff2"@ {
        Some(FontAsset::BrandsWoff2)
    } else {
        None
    }
}

/// The asset a `/fonts/` path names, if any (else 404).
pub fn font_asset(path: &str) -> (r: Option<FontAsset>)
    ensures
        r == font_asset_of(path@),
{
    let p = chars_of(path);
    if same_chars(&p, &chars_of("all.min.css")) {
        Some(FontAsset::AllMinCss)
    } else if same_chars(&p, &chars_of("fa-solid-900.woff2")) {
        Some(FontAsset::SolidWoff2)
    } else if same_chars(&p, &chars_of("fa-regular-400.woff2")) {
        Some(FontAsset::RegularWoff2)
    } else if same_chars(&p, &chars_of("fa-brands-400.woff2")) {
        Some(FontAsset::BrandsWoff2)
    } else {
        None
    }
}

pub open spec fn font_mime_of(path: Seq<char>) -> Seq<char> {
    if has_suffix(path, ".css"@) {
        "text/css"@
    } else if has_suffix(path, ".woff2"@) {
        "font/woff2"@
    } else {
        "application/octet-stream"@
    }
}

/// The `Content-Type` of a `/fonts/` answer, by the path's ending.
pub fn font_mime(path: &str) -> (r: String)
    ensures
        r@ == font_mime_of(path@),
{
    let p = chars_of(path);
    if ends_with(&p, &chars_of(".css")) {
        String::from_str("text/css")
    } else if ends_with(&p, &chars_of(".woff2")) {
        String::from_str("font/woff2")
    } else {
        String::from_str("application/octet-stream")
    }
}

/// The desktop pages that `read_page` serves.
#[derive(Debug, Clone, Copy, PartialEq, Eq)]
pub enum Page {
    Share,
    Received,
    Settings,
    SettingsSoftware,
    SettingsSecurity,
    SettingsReceive,
    SettingsNotification,
    SettingsAppearance,
}

pub open spec fn page_of(name: Seq<char>) -> Option<Page> {
    if name == "share"@ {
        Some(Page::Share)
    } else if name == "received"@ {
        Some(Page::Received)
    } else if name == "settings"@ {
        Some(Page::Settings)
    } else if name == "settings-software"@ {
        Some(Page::SettingsSoftware)
    } else if name == "settings-security"@ {
        Some(Page::SettingsSecurity)
    } else if name == "settings-receive"@ {
        Some(Page::SettingsReceive)
    } else if name == "settings-notification"@ {
        Some(Page::SettingsNotification)
    } else if name == "settings-appearance"@ {
        Some(Page::SettingsAppearance)
    } else {
        None
    }
}

/// The page called `name`, or the error `Unknown page: <name>`.
pub fn read_page(name: &str) -> (r: Result<Page, String>)
    ensures
        r matches Ok(p) ==> page_of(name@) == Some(p),
        r matches Err(e) ==> page_of(name@) is None && e@ == "Unknown page: "@ + name@,
        r is Ok <==> page_of(name@) is Some,
{
    let n = chars_of(name);
    if same_chars(&n, &chars_of("share")) {
        Ok(Page::Share)
    } else if same_chars(&n, &chars_of("received")) {
        Ok(Page::Received)
    } else if same_chars(&n, &chars_of("settings")) {
        Ok(Page::Settings)
    } else if same_chars(&n, &chars_of("settings-software")) {
        Ok(Page::SettingsSoftware)
    } else if same_chars(&n, &chars_of("settings-security")) {
        Ok(Page::SettingsSecurity)
    } else if same_chars(&n, &chars_of("settings-receive")) {
        Ok(Page::SettingsReceive)
    } else if same_chars(&n, &chars_of("settings-notification")) {
        Ok(Page::SettingsNotification)
    } else if same_chars(&n, &chars_of("settings-appearance")) {
        Ok(Page::SettingsAppearance)
    } else {
        let mut e = chars_of("Unknown page: ");
        extend_chars(&mut e, &n);
        Err(string_of(&e))
    }
}


/// The `Content-Type` of a download, guessed by `mime_guess` from the
/// file name's extension (for a name with `\` or `:`, by the platform's
/// reading of it).
pub fn mime_for(name: &str) -> (r: String)
    ensures
        portable_name(name@) ==> r@ == guessed_mime(name@),
{
    mime_guess_first(name)
}

/// The page answered (with 404) for a download whose share has ended.
pub open spec fn expired_page_text() -> Seq<char> {
    "<!DOCTYPE html><html lang=\"zh-CN\"><head><meta charset=\"UTF-8\"><meta name=\"viewport\" content=\"width=device-width,initial-scale=1\"><title>Expired</title><style>body{font-family:-apple-system,sans-serif;background:#f5f5f5;display:flex;align-items:center;justify-content:center;min-height:100vh;margin:0}.card{background:#fff;border-radius:16px;padding:48px 32px;text-align:center;box-shadow:0 4px 24px rgba(0,0,0,.08);max-width:360px}h2{color:#e74c3c;margin-bottom:8px}p{color:#666}</style></head><body><div class=\"card\"><h2>Share Expired</h2><p>Ask sender to reshare</p></div></body></html>"@
}

pub fn expired_page() -> (r: String)
    ensures
        r@ == expired_page_text(),
{
    String::from_str("<!DOCTYPE html><html lang=\"zh-CN\"><head><meta charset=\"UTF-8\"><meta name=\"viewport\" content=\"width=device-width,initial-scale=1\"><title>Expired</title><style>body{font-family:-apple-system,sans-serif;background:#f5f5f5;display:flex;align-items:center;justify-content:center;min-height:100vh;margin:0}.card{background:#fff;border-radius:16px;padding:48px 32px;text-align:center;box-shadow:0 4px 24px rgba(0,0,0,.08);max-width:360px}h2{color:#e74c3c;margin-bottom:8px}p{color:#666}</style></head><body><div class=\"card\"><h2>Share Expired</h2><p>Ask sender to reshare</p></div></body></html>")
}


proof fn lemma_not_prefix(s: Seq<char>, p: Seq<char>, i: int)
    requires
        0 <= i < p.len(),
        i < s.len(),
        s[i] != p[i],
    ensures
        !has_prefix(s, p),
{
    if has_prefix(s, p) {
        assert(s.subrange(0, p.len() as int)[i] == s[i]);
    }
}

proof fn lemma_no_trailing(id: Seq<char>, c: char)
    requires
        !id.contains(c),
    ensures
        trim_end_char(id, c) == id,
{
    if id.len() > 0 {
        assert(id[id.len() - 1] == id.last());
    }
}

proof fn lemma_method_get()
    ensures
        "GET"@ != "OPTIONS"@,
        "GET"@ != "POST"@,
{
    reveal_strlit("GET");
    reveal_strlit("OPTIONS");
    reveal_strlit("POST");
    assert("GET"@.len() != "OPTIONS"@.len());
    assert("GET"@.len() != "POST"@.len());
}

/// A URL whose second character is neither `u` nor `c` takes none of
/// the upload or `/cli` routes, and is not `/`.
proof fn lemma_not_upload_or_cli(url: Seq<char>)
    requires
        url.len() >= 3,
        url[1] != 'u',
        url[1] != 'c',
    ensures
        url != "/"@,
        url != "/upload-start"@,
        !has_prefix(url, "/upload"@),
        !has_prefix(url, "/cli"@),
{
    reveal_strlit("/");
    reveal_strlit("/upload-start");
    reveal_strlit("/upload");
    reveal_strlit("/cli");
    if url.len() >= 7 {
        lemma_not_prefix(url, "/upload"@, 1);
    }
    if url.len() >= 4 {
        lemma_not_prefix(url, "/cli"@, 1);
    }
    assert(url != "/upload-start"@) by {
        if url == "/upload-start"@ {
            assert(url[1] == 'u');
        }
    }
}

proof fn lemma_bundle_link(id: Seq<char>)
    requires
        !id.contains('/'),
    ensures
        route_of("/s/"@ + id, "GET"@) == RouteView::BundlePage(id),
{
    reveal_strlit("/s/");
    lemma_method_get();
    lemma_no_trailing(id, '/');
    let url = "/s/"@ + id;
    assert(url[1] == 's');
    lemma_not_upload_or_cli(url);
    assert(has_prefix(url, "/s/"@)) by {
        assert(url.subrange(0, 3) =~= "/s/"@);
    }
    assert(url.skip(3) =~= id);
}

proof fn lemma_raw_link(id: Seq<char>)
    requires
        !id.contains('?'),
    ensures
        route_of(download_url(id), "GET"@) == RouteView::RawFile(id),
{
    reveal_strlit("/s/");
    reveal_strlit("/d/");
    reveal_strlit("?dl=1");
    reveal_strlit("dl=1");
    lemma_method_get();
    let url = download_url(id);
    let rest = id + "?dl=1"@;
    assert(url[1] == 'd');
    lemma_not_upload_or_cli(url);
    lemma_not_prefix(url, "/s/"@, 1);
    assert(has_prefix(url, "/d/"@)) by {
        assert(url.subrange(0, 3) =~= "/d/"@);
    }
    assert(url.skip(3) =~= rest);
    assert(!"dl=1"@.contains('?')) by {
        if "dl=1"@.contains('?') {
            let j = choose|j: int| 0 <= j < 4 && "dl=1"@[j] == '?';
        }
    }
    assert(rest =~= id + seq!['?'] + "dl=1"@);
    lemma_split_two(id, "dl=1"@, '?');
    assert(occurs_at(rest, "dl=1"@, id.len() as int + 1)) by {
        assert(rest.subrange(id.len() as int + 1, id.len() as int + 5) =~= "dl=1"@);
    }
}

proof fn lemma_page_link(id: Seq<char>)
    requires
        !id.contains('?'),
        !id.contains('='),
    ensures
        route_of("/d/"@ + id, "GET"@) == RouteView::DownloadPage(id),
{
    reveal_strlit("/s/");
    reveal_strlit("/d/");
    reveal_strlit("dl=1");
    lemma_method_get();
    let url = "/d/"@ + id;
    assert(url[1] == 'd');
    lemma_not_upload_or_cli(url);
    lemma_not_prefix(url, "/s/"@, 1);
    assert(has_prefix(url, "/d/"@)) by {
        assert(url.subrange(0, 3) =~= "/d/"@);
    }
    assert(url.skip(3) =~= id);
    lemma_split_on_absent(id, '?');
    assert(!contains_seq(id, "dl=1"@)) by {
        if contains_seq(id, "dl=1"@) {
            let i = choose|i: int| #[trigger] occurs_at(id, "dl=1"@, i);
            assert(id.subrange(i, i + 4)[2] == id[i + 2]);
            assert(id[i + 2] == '=');
        }
    }
}

/// The links of a shared item lead back to it. For an id without `/`, `?` or
/// `=` (share ids are lower-case letters and digits): `GET /s/<id>`, the path
/// of the QR address, opens bundle `id`'s page; `GET /d/<id>?dl=1` fetches
/// file `id` itself; `GET /d/<id>` opens its download page.
pub proof fn law_share_links_route_back(id: Seq<char>)
    requires
        !id.contains('/'),
        !id.contains('?'),
        !id.contains('='),
    ensures
        route_of("/s/"@ + id, "GET"@) == RouteView::BundlePage(id),
        route_of(download_url(id), "GET"@) == RouteView::RawFile(id),
        route_of("/d/"@ + id, "GET"@) == RouteView::DownloadPage(id),
{
    lemma_bundle_link(id);
    lemma_raw_link(id);
    lemma_page_link(id);
}

}
