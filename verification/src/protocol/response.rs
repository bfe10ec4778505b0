//! Request routing and the fixed parts of the handler's responses.

use vstd::prelude::*;
use crate::protocol::host::{realm_origin, realm_origin_spec, Target};
use crate::encoding::{encode_path_segment, encode_path_segment_bytes};
use crate::text::{chars_of, decimal, opt_view, push_str, str_equal};
use vstd::string::StrSliceExecFns;
use vstd::utf8::encode_utf8;

verus! {

/// The request method, as far as the handler tells methods apart.
#[derive(Clone, Copy, Debug, PartialEq, Eq, Structural)]
pub enum HttpMethod {
    Get,
    Head,
    Options,
    Other,
}

/// The views of a list of header name/value pairs.
pub open spec fn header_views(h: Seq<(String, String)>) -> Seq<(Seq<char>, Seq<char>)> {
    h.map_values(|p: (String, String)| (p.0@, p.1@))
}

/// A response with its body.
#[derive(Debug)]
pub struct SimpleResponse {
    pub status: u16,
    pub headers: Vec<(String, String)>,
    pub body: Vec<u8>,
}

/// The status line and headers of a response whose body is read from disk.
#[derive(Debug)]
pub struct ResponseHead {
    pub status: u16,
    pub headers: Vec<(String, String)>,
}

pub(crate) fn header(name: &str, value: &str) -> (h: (String, String))
    ensures
        h.0@ == name@,
        h.1@ == value@,
{
    (name.to_owned(), value.to_owned())
}

/// The permissive CORS headers that let the wallpaper document load
/// `asset`-realm files from its sibling origin, ranged requests included.
pub open spec fn cors_header_views() -> Seq<(Seq<char>, Seq<char>)> {
    seq![
        ("Access-Control-Allow-Origin"@, "*"@),
        ("Access-Control-Allow-Methods"@, "GET, HEAD, OPTIONS"@),
        ("Access-Control-Allow-Headers"@, "Range"@),
        (
            "Access-Control-Expose-Headers"@,
            "Content-Length, Content-Range, Accept-Ranges, Content-Type"@,
        ),
    ]
}

/// The CORS headers added to `asset`-realm responses and preflights.
pub fn cors_headers() -> (h: Vec<(String, String)>)
    ensures
        header_views(h@) == cors_header_views(),
{
    let mut h = Vec::new();
    h.push(header("Access-Control-Allow-Origin", "*"));
    h.push(header("Access-Control-Allow-Methods", "GET, HEAD, OPTIONS"));
    h.push(header("Access-Control-Allow-Headers", "Range"));
    h.push(
        header(
            "Access-Control-Expose-Headers",
            "Content-Length, Content-Range, Accept-Ranges, Content-Type",
        ),
    );
    assert(header_views(h@) =~= cors_header_views());
    h
}

/// The answer to a CORS preflight: 204 with the CORS headers.
pub fn preflight_response() -> (r: SimpleResponse)
    ensures
        r.status == 204,
        header_views(r.headers@) == cors_header_views(),
        r.body@.len() == 0,
{
    SimpleResponse { status: 204, headers: cors_headers(), body: Vec::new() }
}

/// 404 with a plain-text `Not Found` body.
pub fn not_found() -> (r: SimpleResponse)
    ensures
        r.status == 404,
        header_views(r.headers@) == seq![("Content-Type"@, "text/plain"@)],
        r.body@ == encode_utf8("Not Found"@),
{
    let mut h = Vec::new();
    h.push(header("Content-Type", "text/plain"));
    assert(header_views(h@) =~= seq![("Content-Type"@, "text/plain"@)]);
    SimpleResponse { status: 404, headers: h, body: "Not Found".as_bytes_vec() }
}

/// 405 for methods other than GET and HEAD, naming the allowed ones.
pub fn method_not_allowed() -> (r: SimpleResponse)
    ensures
        r.status == 405,
        header_views(r.headers@) == seq![("Allow"@, "GET, HEAD"@)],
        r.body@.len() == 0,
{
    let mut h = Vec::new();
    h.push(header("Allow", "GET, HEAD"));
    assert(header_views(h@) =~= seq![("Allow"@, "GET, HEAD"@)]);
    SimpleResponse { status: 405, headers: h, body: Vec::new() }
}

/// `s` without its leading and trailing slashes (`trim_matches('/')`).
pub open spec fn trim_slashes(s: Seq<char>) -> Seq<char>
    decreases s.len(),
{
    if s.len() > 0 && s[0] == '/' {
        trim_slashes(s.drop_first())
    } else if s.len() > 0 && s.last() == '/' {
        trim_slashes(s.drop_last())
    } else {
        s
    }
}

/// Trimming the slashes off `s[a..b]` once its ends are trimmed.
proof fn lemma_trim_inner(s: Seq<char>, a: int, b: int)
    requires
        0 <= a <= b <= s.len(),
        forall|i: int| 0 <= i < a ==> s[i] == '/',
        forall|i: int| b <= i < s.len() ==> s[i] == '/',
        a < b ==> s[a] != '/',
        a < b ==> s[b - 1] != '/',
    ensures
        trim_slashes(s) == trim_slashes(s.subrange(a, b)),
    decreases s.len(),
{
    if s.len() > 0 && s[0] == '/' {
        if a > 0 {
            lemma_trim_inner(s.drop_first(), a - 1, b - 1);
            assert(s.drop_first().subrange(a - 1, b - 1) =~= s.subrange(a, b));
        } else {
            // a == 0 == b: everything is a slash
            assert(b == 0);
            lemma_trim_inner(s.drop_first(), 0, 0);
            assert(s.drop_first().subrange(0, 0) =~= s.subrange(0, 0));
        }
    } else if s.len() > 0 && s.last() == '/' {
        if b < s.len() {
            lemma_trim_inner(s.drop_last(), a, b);
            assert(s.drop_last().subrange(a, b) =~= s.subrange(a, b));
        } else {
            assert(a == b);
            assert(s.len() == 0) by {
                if s.len() > 0 && a > 0 {
                    assert(s[0] == '/');
                }
            }
        }
    } else {
        if a > 0 {
            assert(s[0] == '/');
        }
        if b < s.len() {
            assert(s[s.len() - 1] == '/');
        }
        assert(s.subrange(a, b) =~= s);
    }
}

/// Removes leading and trailing slashes.
pub fn trim_slashes_str<'a>(s: &'a str) -> (t: &'a str)
    ensures
        t@ == trim_slashes(s@),
{
    let cs = chars_of(s);
    let n = cs.len();
    let mut a: usize = 0;
    while a < n && cs[a] == '/'
        invariant
            cs@ == s@,
            n == s@.len(),
            a <= n,
            forall|i: int| 0 <= i < a ==> s@[i] == '/',
        decreases n - a,
    {
        a = a + 1;
    }
    let mut b: usize = n;
    while b > a && cs[b - 1] == '/'
        invariant
            cs@ == s@,
            n == s@.len(),
            a <= b <= n,
            forall|i: int| b <= i < n ==> s@[i] == '/',
        decreases b,
    {
        b = b - 1;
    }
    proof {
        if a < b {
            assert(s@[a as int] != '/');
            assert(s@[b - 1] != '/');
        }
        lemma_trim_inner(s@, a as int, b as int);
        let t = s@.subrange(a as int, b as int);
        if a < b {
            assert(t[0] != '/');
            assert(t.last() != '/');
        }
        assert(trim_slashes(t) == t);
    }
    s.substring_char(a, b)
}

/// The file path a request asks for: the URI path without surrounding
/// slashes, `index.html` when that leaves nothing.
pub open spec fn request_path(uri_path: Seq<char>) -> Seq<char> {
    if trim_slashes(uri_path).len() == 0 {
        "index.html"@
    } else {
        trim_slashes(uri_path)
    }
}

/// Where a request goes.
#[derive(Debug)]
pub enum Route {
    /// A CORS preflight, answered with `preflight_response`.
    Preflight,
    /// Answered with `not_found`.
    NotFound,
    /// Answered with `method_not_allowed`.
    MethodNotAllowed,
    /// A file of the wallpaper's own directory.
    WallpaperFile { id: String, path: String },
    /// A configured `file`/`directory` input of the wallpaper, `rest` being
    /// the input id and, for directories, a path inside it.
    AssetFile { index: usize, id: String, rest: String },
}

/// Routes a request by method, parsed host and URI path.
pub fn route_request(method: HttpMethod, target: Option<&Target>, uri_path: &str) -> (r: Route)
    ensures
        method == HttpMethod::Options ==> r is Preflight,
        method != HttpMethod::Options ==> match target {
            None => r is NotFound,
            Some(t) => if method != HttpMethod::Get && method != HttpMethod::Head {
                r is MethodNotAllowed
            } else if t.realm@ == "wallpaper"@ {
                r matches Route::WallpaperFile { id, path } && id@ == t.id@ && path@
                    == request_path(uri_path@)
            } else if t.realm@ == "asset"@ {
                r matches Route::AssetFile { index, id, rest } && index == t.index && id@
                    == t.id@ && rest@ == request_path(uri_path@)
            } else {
                r is NotFound
            },
        },
{
    if method == HttpMethod::Options {
        return Route::Preflight;
    }
    let t = match target {
        None => return Route::NotFound,
        Some(t) => t,
    };
    if method != HttpMethod::Get && method != HttpMethod::Head {
        return Route::MethodNotAllowed;
    }
    let trimmed = trim_slashes_str(uri_path);
    let path = if trimmed.is_empty() {
        "index.html".to_owned()
    } else {
        trimmed.to_owned()
    };
    if str_equal(t.realm.as_str(), "wallpaper") {
        Route::WallpaperFile { id: t.id.clone(), path }
    } else if str_equal(t.realm.as_str(), "asset") {
        Route::AssetFile { index: t.index, id: t.id.clone(), rest: path }
    } else {
        Route::NotFound
    }
}

/// The content security policy of wallpaper documents, before the asset
/// origin is added.
pub open spec fn base_csp() -> Seq<char> {
    "default-src 'self' 'unsafe-inline' ipc: http://ipc.localhost"@
}

/// The headers that the handler adds to every non-preflight response for a
/// target: the wallpaper document's CSP, which also allows its sibling
/// `asset` origin; the CORS headers for the `asset` realm; nothing else.
pub open spec fn realm_header_views(target: Option<(Seq<char>, nat, Seq<char>)>, http_form: bool) -> Seq<
    (Seq<char>, Seq<char>),
> {
    match target {
        Some((realm, index, id)) => if realm == "wallpaper"@ {
            seq![
                (
                    "Content-Security-Policy"@,
                    base_csp() + seq![' '] + realm_origin_spec("asset"@, index, id, http_form),
                ),
            ]
        } else if realm == "asset"@ {
            cors_header_views()
        } else {
            Seq::empty()
        },
        None => Seq::empty(),
    }
}

/// The headers to add to a response for `target` (see `realm_header_views`).
pub fn realm_headers(target: Option<&Target>, http_form: bool) -> (h: Vec<(String, String)>)
    requires
        target matches Some(t) ==> t.index < usize::MAX,
    ensures
        header_views(h@) == realm_header_views(
            match target {
                Some(t) => Some((t.realm@, t.index as nat, t.id@)),
                None => None,
            },
            http_form,
        ),
{
    match target {
        Some(t) => {
            if str_equal(t.realm.as_str(), "wallpaper") {
                let mut csp = "default-src 'self' 'unsafe-inline' ipc: http://ipc.localhost".to_owned();
                proof {
                    reveal_strlit(" ");
                }
                push_str(&mut csp, " ");
                let origin = realm_origin("asset", t.index, t.id.as_str(), http_form);
                push_str(&mut csp, origin.as_str());
                assert(csp@ == base_csp() + seq![' '] + realm_origin_spec(
                    "asset"@,
                    t.index as nat,
                    t.id@,
                    http_form,
                ));
                let mut h = Vec::new();
                h.push(("Content-Security-Policy".to_owned(), csp));
                assert(header_views(h@) =~= realm_header_views(
                    Some((t.realm@, t.index as nat, t.id@)),
                    http_form,
                ));
                h
            } else if str_equal(t.realm.as_str(), "asset") {
                cors_headers()
            } else {
                let h = Vec::new();
                assert(header_views(h@) =~= Seq::<(Seq<char>, Seq<char>)>::empty());
                h
            }
        },
        None => {
            let h = Vec::new();
            assert(header_views(h@) =~= Seq::<(Seq<char>, Seq<char>)>::empty());
            h
        },
    }
}

/// A wallpaper document's only realm header is its CSP, which allows,
/// after the fixed sources, the asset origin of the same monitor and
/// wallpaper in the form the page is served under: `http://underpane.…`
/// where WebView2 maps custom schemes to http, `underpane://…` elsewhere.
/// That origin is the one `realm_origin` gives for the same form.
pub proof fn lemma_wallpaper_csp_allows_asset_origin(index: nat, id: Seq<char>, http_form: bool)
    ensures
        ({
            let h = realm_header_views(Some(("wallpaper"@, index, id)), http_form);
            &&& h.len() == 1
            &&& h[0].0 == "Content-Security-Policy"@
            &&& h[0].1 == base_csp() + " "@ + (if http_form {
                "http://underpane."@
            } else {
                "underpane://"@
            }) + "monitor-"@ + decimal(index + 1) + "."@ + id + ".asset"@
            &&& h[0].1 == base_csp() + " "@ + realm_origin_spec("asset"@, index, id, http_form)
        }),
{
    reveal_strlit(" ");
    reveal_strlit("http://underpane.");
    reveal_strlit("underpane://");
    reveal_strlit("monitor-");
    reveal_strlit(".");
    reveal_strlit(".asset");
    reveal_strlit("asset");
    let h = realm_header_views(Some(("wallpaper"@, index, id)), http_form);
    let pre = if http_form {
        "http://underpane."@
    } else {
        "underpane://"@
    };
    assert(realm_origin_spec("asset"@, index, id, http_form) =~= pre + "monitor-"@ + decimal(index
        + 1) + "."@ + id + ".asset"@);
    assert(h[0].1 =~= base_csp() + " "@ + (pre + "monitor-"@ + decimal(index + 1) + "."@ + id
        + ".asset"@));
    assert(base_csp() + " "@ + (pre + "monitor-"@ + decimal(index + 1) + "."@ + id + ".asset"@)
        =~= base_csp() + " "@ + pre + "monitor-"@ + decimal(index + 1) + "."@ + id + ".asset"@);
}

/// ASCII lowercase of one character.
pub open spec fn ascii_lower(c: char) -> char {
    if 'A' <= c && c <= 'Z' {
        ((c as u32) + 32) as char
    } else {
        c
    }
}

/// Whether `pat` occurs in `s`.
pub open spec fn contains_seq(s: Seq<char>, pat: Seq<char>) -> bool {
    exists|i: int| 0 <= i && i + pat.len() <= s.len() && #[trigger] s.subrange(i, i + pat.len()) == pat
}

/// Whether an `Accept` header value opts into a `text/uri-list` listing,
/// compared without regard to ASCII case.
pub open spec fn accepts_uri_list_spec(accept: Option<Seq<char>>) -> bool {
    match accept {
        Some(a) => contains_seq(a.map_values(|c: char| ascii_lower(c)), "text/uri-list"@),
        None => false,
    }
}

/// Whether the request's `Accept` header (absent when missing or not
/// visible ASCII) opts into a `text/uri-list` listing.
pub fn accepts_uri_list(accept: Option<&str>) -> (b: bool)
    ensures
        b == accepts_uri_list_spec(opt_view(accept)),
{
    let a = match accept {
        None => return false,
        Some(a) => a,
    };
    let cs = chars_of(a);
    let mut low: Vec<char> = Vec::new();
    for i in 0..cs.len()
        invariant
            cs@ == a@,
            low@ == a@.take(i as int).map_values(|c: char| ascii_lower(c)),
    {
        let c = cs[i];
        let l = if 'A' <= c && c <= 'Z' { ((c as u32) + 32) as u8 as char } else { c };
        proof {
            vstd::utf8::char_is_scalar(c);
        }
        assert(l == ascii_lower(c));
        low.push(l);
        assert(a@.take(i + 1).map_values(|c: char| ascii_lower(c)) =~= a@.take(i as int).map_values(
            |c: char| ascii_lower(c),
        ).push(ascii_lower(c)));
    }
    assert(a@.take(cs.len() as int) =~= a@);
    assert(low@ == a@.map_values(|c: char| ascii_lower(c)));
    let pat = chars_of("text/uri-list");
    let ghost lv = low@;
    if pat.len() > low.len() {
        assert(!contains_seq(lv, "text/uri-list"@));
        return false;
    }
    let mut i: usize = 0;
    while i <= low.len() - pat.len()
        invariant
            pat@ == "text/uri-list"@,
            low@ == lv,
            lv == a@.map_values(|c: char| ascii_lower(c)),
            accept == Some(a),
            pat.len() <= low.len(),
            i <= low.len() - pat.len() + 1,
            forall|j: int| 0 <= j < i ==> #[trigger] lv.subrange(j, j + pat.len()) != pat@,
        decreases low.len() - i,
    {
        let mut k: usize = 0;
        let mut same = true;
        while k < pat.len()
            invariant
                pat.len() <= low.len(),
                i + pat.len() <= low.len(),
                k <= pat.len(),
                low@ == lv,
                same == forall|m: int| 0 <= m < k ==> lv[i + m] == pat@[m],
            decreases pat.len() - k,
        {
            if low[i + k] != pat[k] {
                same = false;
            }
            k = k + 1;
        }
        if same {
            assert(lv.subrange(i as int, i + "text/uri-list"@.len()) =~= "text/uri-list"@);
            assert(contains_seq(lv, "text/uri-list"@));
            return true;
        }
        assert(lv.subrange(i as int, i + pat.len()) != pat@) by {
            let m = choose|m: int| 0 <= m < pat.len() && lv[i + m] != pat@[m];
            assert(lv.subrange(i as int, i + pat.len())[m] == lv[i + m]);
        }
        i = i + 1;
    }
    assert(!contains_seq(lv, "text/uri-list"@));
    false
}

/// The lines joined with `sep` between them.
pub open spec fn join_with(lines: Seq<Seq<char>>, sep: Seq<char>) -> Seq<char>
    decreases lines.len(),
{
    if lines.len() == 0 {
        Seq::empty()
    } else if lines.len() == 1 {
        lines[0]
    } else {
        join_with(lines.drop_last(), sep) + sep + lines.last()
    }
}

/// One line of a directory listing: the percent-encoded name, with `/`
/// after the name of a directory.
pub open spec fn listing_line(name: Seq<char>, is_dir: bool) -> Seq<char> {
    encode_path_segment_bytes(encode_utf8(name)) + (if is_dir {
        seq!['/']
    } else {
        Seq::empty()
    })
}

/// The lines of a listing of `(name, is_dir)` entries.
pub open spec fn listing_lines(entries: Seq<(String, bool)>) -> Seq<Seq<char>> {
    entries.map_values(|e: (String, bool)| listing_line(e.0@, e.1))
}

/// The body of a `text/uri-list` listing of a directory's immediate
/// children (symlinks already left out): one percent-encoded name per line,
/// CRLF between lines, directories suffixed `/`, relative to the request
/// URL.
pub fn uri_list_body(entries: &[(String, bool)]) -> (body: String)
    ensures
        body@ == join_with(listing_lines(entries@), "\r\n"@),
{
    let mut body = String::new();
    proof {
        reveal_strlit("\r\n");
        reveal_strlit("/");
    }
    for i in 0..entries.len()
        invariant
            body@ == join_with(listing_lines(entries@.take(i as int)), "\r\n"@),
    {
        let ghost before = listing_lines(entries@.take(i as int));
        let ghost prev = body@;
        proof {
            reveal_strlit("/");
        }
        let mut line = encode_path_segment(entries[i].0.as_str());
        if entries[i].1 {
            push_str(&mut line, "/");
        }
        assert(line@ =~= listing_line(entries@[i as int].0@, entries@[i as int].1));
        if i > 0 {
            push_str(&mut body, "\r\n");
        }
        push_str(&mut body, line.as_str());
        let ghost after = listing_lines(entries@.take(i + 1));
        assert(after =~= before.push(listing_line(entries@[i as int].0@, entries@[i as int].1)));
        assert(after.drop_last() =~= before);
        if i == 0 {
            assert(before.len() == 0);
            assert(prev =~= Seq::<char>::empty());
            assert(body@ =~= join_with(after, "\r\n"@));
        } else {
            assert(body@ =~= join_with(after, "\r\n"@));
        }
    }
    assert(entries@.take(entries.len() as int) =~= entries@);
    body
}

} // verus!
