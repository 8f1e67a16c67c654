//! Which handler the HTTP server runs for a request line.
use vstd::prelude::*;
use crate::text::{chars_of, same_chars, starts_with, strip_prefix, contains, split_char, views,
    trim_end_matching, has_prefix, without_prefix, contains_seq, split_on, trim_end_char, string_of};

verus! {

/// What the server does with a request.
#[derive(Debug)]
pub enum Route {
    /// `OPTIONS`: an empty 204 answer.
    Preflight,
    /// `GET /`: the upload page for phones.
    SendPage,
    /// `POST /upload-start`: announces a batch of uploads.
    UploadStart,
    /// `POST /upload...`: one uploaded file.
    Upload,
    /// `POST /cli...`: paths forwarded by a second instance.
    CliForward,
    /// `GET /s/<id>`: the page of a shared bundle (trailing `/` removed).
    BundlePage(String),
    /// `/d/<id>?...dl=1` with `GET`, or `/v/<id>`: the file itself.
    RawFile(String),
    /// `/d/<id>` otherwise: the download page of one file.
    DownloadPage(String),
    /// `GET /i18n.js`: the translations script.
    I18n,
    /// `/fonts/<name>`: an icon-font asset.
    Font(String),
    /// Anything else: 404.
    NotFound,
}

/// A route with its text arguments as character sequences.
pub enum RouteView {
    Preflight,
    SendPage,
    UploadStart,
    Upload,
    CliForward,
    BundlePage(Seq<char>),
    RawFile(Seq<char>),
    DownloadPage(Seq<char>),
    I18n,
    Font(Seq<char>),
    NotFound,
}

impl View for Route {
    type V = RouteView;

    open spec fn view(&self) -> RouteView {
        match self {
            Route::Preflight => RouteView::Preflight,
            Route::SendPage => RouteView::SendPage,
            Route::UploadStart => RouteView::UploadStart,
            Route::Upload => RouteView::Upload,
            Route::CliForward => RouteView::CliForward,
            Route::BundlePage(s) => RouteView::BundlePage(s@),
            Route::RawFile(s) => RouteView::RawFile(s@),
            Route::DownloadPage(s) => RouteView::DownloadPage(s@),
            Route::I18n => RouteView::I18n,
            Route::Font(s) => RouteView::Font(s@),
            Route::NotFound => RouteView::NotFound,
        }
    }
}

/// The route of a request, tested in this order: `OPTIONS`; `GET /`;
/// `POST /upload-start`; `POST` under `/upload`; `POST` under `/cli`;
/// `/s/` (only `GET`, else 404); `/d/` (the file itself for `GET` with `dl=1`
/// anywhere after the prefix, else its page; the id ends at the first `?`);
/// `GET /i18n.js`; `/fonts/`; `/v/`; else 404.
pub open spec fn route_of(url: Seq<char>, method: Seq<char>) -> RouteView {
    if method == "OPTIONS"@ {
        RouteView::Preflight
    } else if url == "/"@ && method == "GET"@ {
        RouteView::SendPage
    } else if url == "/upload-start"@ && method == "POST"@ {
        RouteView::UploadStart
    } else if has_prefix(url, "/upload"@) && method == "POST"@ {
        RouteView::Upload
    } else if has_prefix(url, "/cli"@) && method == "POST"@ {
        RouteView::CliForward
    } else if has_prefix(url, "/s/"@) {
        if method == "GET"@ {
            RouteView::BundlePage(trim_end_char(url.skip(3), '/'))
        } else {
            RouteView::NotFound
        }
    } else if has_prefix(url, "/d/"@) {
        let rest = url.skip(3);
        let id = split_on(rest, '?')[0];
        if method == "GET"@ && contains_seq(rest, "dl=1"@) {
            RouteView::RawFile(id)
        } else {
            RouteView::DownloadPage(id)
        }
    } else if url == "/i18n.js"@ && method == "GET"@ {
        RouteView::I18n
    } else if has_prefix(url, "/fonts/"@) {
        RouteView::Font(url.skip(7))
    } else if has_prefix(url, "/v/"@) {
        RouteView::RawFile(url.skip(3))
    } else {
        RouteView::NotFound
    }
}

/// Chooses the handler for a request with this URL and method.
pub fn route(url: &str, method: &str) -> (r: Route)
    ensures
        r@ == route_of(url@, method@),
{
    let u = chars_of(url);
    let m = chars_of(method);
    let options = chars_of("OPTIONS");
    let get = chars_of("GET");
    let post = chars_of("POST");
    let is_get = same_chars(&m, &get);
    let is_post = same_chars(&m, &post);
    if same_chars(&m, &options) {
        return Route::Preflight;
    }
    if same_chars(&u, &chars_of("/")) && is_get {
        return Route::SendPage;
    }
    if same_chars(&u, &chars_of("/upload-start")) && is_post {
        return Route::UploadStart;
    }
    if starts_with(&u, &chars_of("/upload")) && is_post {
        return Route::Upload;
    }
    if starts_with(&u, &chars_of("/cli")) && is_post {
        return Route::CliForward;
    }
    let s_prefix = chars_of("/s/");
    proof { reveal_strlit("/s/"); }
    if let Some(rest) = strip_prefix(&u, &s_prefix) {
        if is_get {
            let id = trim_end_matching(&rest, '/');
            return Route::BundlePage(string_of(&id));
        } else {
            return Route::NotFound;
        }
    }
    let d_prefix = chars_of("/d/");
    proof { reveal_strlit("/d/"); }
    if let Some(rest) = strip_prefix(&u, &d_prefix) {
        let is_dl = contains(&rest, &chars_of("dl=1"));
        let pieces = split_char(&rest, '?');
        proof { crate::text::lemma_split_on_nonempty(rest@, '?'); }
        assert(views(pieces@)[0] == pieces@[0]@);
        let id = string_of(&pieces[0]);
        if is_get && is_dl {
            return Route::RawFile(id);
        } else {
            return Route::DownloadPage(id);
        }
    }
    if same_chars(&u, &chars_of("/i18n.js")) && is_get {
        return Route::I18n;
    }
    let f_prefix = chars_of("/fonts/");
    proof { reveal_strlit("/fonts/"); }
    if let Some(rest) = strip_prefix(&u, &f_prefix) {
        return Route::Font(string_of(&rest));
    }
    let v_prefix = chars_of("/v/");
    proof { reveal_strlit("/v/"); }
    if let Some(rest) = strip_prefix(&u, &v_prefix) {
        return Route::RawFile(string_of(&rest));
    }
    Route::NotFound
}

}
