//! Installing a wallpaper bundle: name and source checks, the progress
//! events, how often progress is reported, and where the wallpaper root
//! sits inside the extracted bundle.

use vstd::prelude::*;
use crate::config::{is_valid_wallpaper_id, valid_wallpaper_id};
use crate::text::{push_str, str_equal};

verus! {

/// A progress event of one installation, told apart by `install_id`.
#[derive(Clone, Debug)]
pub enum InstallProgress {
    Progress {
        install_id: String,
        bytes_done: u64,
        bytes_total: Option<u64>,
        files_done: u64,
        files_total: Option<u64>,
    },
    Validate { install_id: String },
    Done { install_id: String },
    Error { install_id: String, message: String },
}

/// The message for a name that is not a wallpaper id.
pub open spec fn invalid_name_message(name: Seq<char>) -> Seq<char> {
    "invalid wallpaper name '"@ + name
        + "' (allowed: lowercase letters, digits, '-'; cannot start or end with '-')"@
}

/// Refuses a wallpaper name that is not a valid wallpaper id.
pub fn check_wallpaper_name(name: &str) -> (r: Result<(), String>)
    ensures
        r is Ok <==> valid_wallpaper_id(name@),
        r matches Err(e) ==> e@ == invalid_name_message(name@),
{
    if is_valid_wallpaper_id(name) {
        Ok(())
    } else {
        let mut e = "invalid wallpaper name '".to_owned();
        push_str(&mut e, name);
        push_str(&mut e, "' (allowed: lowercase letters, digits, '-'; cannot start or end with '-')");
        Err(e)
    }
}

/// What `url::Url::parse(input)` gives, read as plain text: the scheme of
/// the parsed URL, or the message of the parse error.
pub uninterp spec fn url_parse_outcome(input: Seq<char>) -> Result<Seq<char>, Seq<char>>;

/// `url::Url::parse(input)`, keeping the scheme of the URL or the message
/// of the error.
#[verifier::external_body]
fn parse_url_scheme(input: &str) -> (r: Result<String, String>)
    ensures
        match r {
            Ok(s) => url_parse_outcome(input@) == Ok::<Seq<char>, Seq<char>>(s@),
            Err(e) => url_parse_outcome(input@) == Err::<Seq<char>, Seq<char>>(e@),
        },
{
    url::Url::parse(input).map(|u| u.scheme().to_string()).map_err(|e| e.to_string())
}

/// Where a wallpaper zip comes from, resolved from the `zip_url` scheme.
#[derive(Clone, Debug)]
pub enum ZipSource {
    /// `https://…`, downloaded.
    Remote(String),
    /// `file://…`, a local file whose path the URL gives.
    LocalFileUrl(String),
}

/// The source that a URL of the given parse outcome names, or the error.
pub open spec fn zip_source_spec(zip_url: Seq<char>, outcome: Result<Seq<char>, Seq<char>>) -> Result<
    (bool, Seq<char>),
    Seq<char>,
> {
    match outcome {
        Err(e) => Err("invalid zip_url: "@ + e),
        Ok(scheme) => if scheme == "https"@ {
            Ok((true, zip_url))
        } else if scheme == "file"@ {
            Ok((false, zip_url))
        } else {
            Err("unsupported zip_url scheme '"@ + scheme + "'"@)
        },
    }
}

/// `(is_remote, url)` of a source.
pub open spec fn zip_source_view(s: ZipSource) -> (bool, Seq<char>) {
    match s {
        ZipSource::Remote(u) => (true, u@),
        ZipSource::LocalFileUrl(u) => (false, u@),
    }
}

/// Decides the source of `zip_url` from what parsing it gave.
pub fn zip_source_from(zip_url: &str, parsed: Result<String, String>) -> (r: Result<ZipSource, String>)
    ensures
        match r {
            Ok(s) => zip_source_spec(
                zip_url@,
                match parsed {
                    Ok(s) => Ok(s@),
                    Err(e) => Err(e@),
                },
            ) == Ok::<(bool, Seq<char>), Seq<char>>(zip_source_view(s)),
            Err(e) => zip_source_spec(
                zip_url@,
                match parsed {
                    Ok(s) => Ok(s@),
                    Err(e) => Err(e@),
                },
            ) == Err::<(bool, Seq<char>), Seq<char>>(e@),
        },
{
    match parsed {
        Err(e) => {
            let mut m = "invalid zip_url: ".to_owned();
            push_str(&mut m, e.as_str());
            Err(m)
        },
        Ok(scheme) => {
            if str_equal(scheme.as_str(), "https") {
                Ok(ZipSource::Remote(zip_url.to_owned()))
            } else if str_equal(scheme.as_str(), "file") {
                Ok(ZipSource::LocalFileUrl(zip_url.to_owned()))
            } else {
                let mut m = "unsupported zip_url scheme '".to_owned();
                push_str(&mut m, scheme.as_str());
                push_str(&mut m, "'");
                Err(m)
            }
        },
    }
}

/// Resolves the source of `zip_url` up front, so a bad URL fails fast.
pub fn resolve_zip_source(zip_url: &str) -> (r: Result<ZipSource, String>)
    ensures
        match r {
            Ok(s) => zip_source_spec(zip_url@, url_parse_outcome(zip_url@)) == Ok::<
                (bool, Seq<char>),
                Seq<char>,
            >(zip_source_view(s)),
            Err(e) => zip_source_spec(zip_url@, url_parse_outcome(zip_url@)) == Err::<
                (bool, Seq<char>),
                Seq<char>,
            >(e@),
        },
{
    let parsed = parse_url_scheme(zip_url);
    zip_source_from(zip_url, parsed)
}

/// `std::path::PathBuf`, carried from the URL to the file system unread.
#[verifier::external_type_specification]
#[verifier::external_body]
pub struct ExPathBuf(std::path::PathBuf);

/// `url::Url::parse(file_url)` followed by `Url::to_file_path`: the local
/// path that a `file:` URL names. How hosts, drive letters and separators
/// are read depends on the platform the library runs on, so nothing is
/// stated of the path, only that there is none when `file_url` does not
/// parse; `None` stands for either call failing.
#[verifier::external_body]
fn file_url_to_path(file_url: &str) -> (r: Option<std::path::PathBuf>)
    ensures
        r is Some ==> url_parse_outcome(file_url@) is Ok,
{
    url::Url::parse(file_url).ok().and_then(|u| u.to_file_path().ok())
}

/// The message for a `file:` URL that names no local path.
pub open spec fn not_local_message(file_url: Seq<char>) -> Seq<char> {
    "zip_url is not a local file url: "@ + file_url
}

/// The local path of a `file:` zip URL, from what `Url::to_file_path`
/// gave for it: the path, or the error that the URL is not a local one.
pub fn local_zip_path_from(file_url: &str, path: Option<std::path::PathBuf>) -> (r: Result<
    std::path::PathBuf,
    String,
>)
    ensures
        path matches Some(p) ==> r == Ok::<std::path::PathBuf, String>(p),
        path is None ==> (r matches Err(e) && e@ == not_local_message(file_url@)),
{
    match path {
        Some(p) => Ok(p),
        None => {
            let mut m = "zip_url is not a local file url: ".to_owned();
            push_str(&mut m, file_url);
            Err(m)
        },
    }
}

/// The local path of a `file:` zip URL (`ZipSource::LocalFileUrl`), or the
/// error that the URL names no local path; which it is depends on the
/// platform's reading of the URL, but a URL that does not parse has none.
pub fn local_zip_path(file_url: &str) -> (r: Result<std::path::PathBuf, String>)
    ensures
        r matches Err(e) ==> e@ == not_local_message(file_url@),
        r is Ok ==> url_parse_outcome(file_url@) is Ok,
{
    let path = file_url_to_path(file_url);
    local_zip_path_from(file_url, path)
}

/// Extracted bytes between two progress reports, unless enough time passed.
pub const EMIT_BYTES_THRESHOLD: u64 = 262144;

/// Milliseconds between two progress reports, unless enough bytes came.
pub const EMIT_MS_THRESHOLD: u128 = 100;

/// When progress was last reported, and how many bytes were done then.
#[derive(Clone, Copy, Debug)]
pub struct ProgressThrottle {
    pub last_emit_ms: Option<u128>,
    pub last_bytes: u64,
}

/// Whether to report progress now: always when forced or never reported
/// before, else once `EMIT_BYTES_THRESHOLD` more bytes are done or
/// `EMIT_MS_THRESHOLD` milliseconds passed (time never runs backwards).
pub open spec fn should_emit(state: ProgressThrottle, force: bool, bytes_done: u64, now_ms: u128) -> bool {
    force || match state.last_emit_ms {
        None => true,
        Some(t) => (bytes_done >= state.last_bytes && bytes_done - state.last_bytes
            >= EMIT_BYTES_THRESHOLD) || (now_ms >= t && now_ms - t >= EMIT_MS_THRESHOLD),
    }
}

impl ProgressThrottle {
    /// Nothing reported yet.
    pub fn new() -> (t: Self)
        ensures
            t.last_emit_ms is None,
            t.last_bytes == 0,
    {
        ProgressThrottle { last_emit_ms: None, last_bytes: 0 }
    }

    /// Decides whether to report progress now and, if so, remembers this
    /// report.
    pub fn decide(&mut self, force: bool, bytes_done: u64, now_ms: u128) -> (emit: bool)
        ensures
            emit == should_emit(*old(self), force, bytes_done, now_ms),
            emit ==> *final(self) == (ProgressThrottle {
                last_emit_ms: Some(now_ms),
                last_bytes: bytes_done,
            }),
            !emit ==> *final(self) == *old(self),
    {
        let emit = force || match self.last_emit_ms {
            None => true,
            Some(t) => {
                let more = if bytes_done >= self.last_bytes {
                    bytes_done - self.last_bytes
                } else {
                    0
                };
                let elapsed = if now_ms >= t {
                    now_ms - t
                } else {
                    0
                };
                more >= EMIT_BYTES_THRESHOLD || elapsed >= EMIT_MS_THRESHOLD
            },
        };
        if emit {
            self.last_emit_ms = Some(now_ms);
            self.last_bytes = bytes_done;
        }
        emit
    }
}

/// Where the wallpaper root sits in the extracted bundle.
#[derive(Clone, Copy, Debug, PartialEq, Eq, Structural)]
pub enum BundleRoot {
    /// `index.toml` is at the top of the bundle.
    Top,
    /// The one top-level directory, by its position among the entries.
    Subdirectory(usize),
}

/// The root of a bundle: the top when it holds `index.toml`, else its only
/// top-level directory (`dirs` tells, entry by entry, which are
/// directories); an error when there are none or several.
pub open spec fn bundle_root_spec(top_has_index: bool, dirs: Seq<bool>) -> Result<BundleRoot, Seq<char>> {
    if top_has_index {
        Ok(BundleRoot::Top)
    } else {
        let count = dirs.filter(|d: bool| d).len();
        if count == 0 {
            Err("zip is empty or has no index.toml"@)
        } else if count > 1 {
            Err("zip has multiple top-level entries and no index.toml at root"@)
        } else {
            Ok(BundleRoot::Subdirectory(choose|i: usize| i < dirs.len() && dirs[i as int]))
        }
    }
}

proof fn lemma_filter_count(s: Seq<bool>, i: int)
    requires
        0 <= i < s.len(),
    ensures
        s.take(i + 1).filter(|d: bool| d).len() == s.take(i).filter(|d: bool| d).len() + (if s[i] {
            1int
        } else {
            0int
        }),
{
    reveal(Seq::filter);
    assert(s.take(i + 1).drop_last() =~= s.take(i));
}

/// Finds the root of an extracted bundle (see `bundle_root_spec`).
pub fn bundle_root(top_has_index: bool, dirs: &[bool]) -> (r: Result<BundleRoot, String>)
    ensures
        match r {
            Ok(BundleRoot::Top) => top_has_index,
            Ok(BundleRoot::Subdirectory(i)) => !top_has_index && i < dirs@.len() && dirs@[i as int]
                && dirs@.filter(|d: bool| d).len() == 1,
            Err(e) => bundle_root_spec(top_has_index, dirs@) == Err::<BundleRoot, Seq<char>>(e@),
        },
        r is Ok <==> bundle_root_spec(top_has_index, dirs@) is Ok,
{
    if top_has_index {
        return Ok(BundleRoot::Top);
    }
    let mut found: Option<usize> = None;
    for i in 0..dirs.len()
        invariant
            !top_has_index,
            match found {
                None => dirs@.take(i as int).filter(|d: bool| d).len() == 0,
                Some(k) => k < i && dirs@[k as int] && dirs@.take(i as int).filter(|d: bool| d).len()
                    == 1,
            },
    {
        proof {
            lemma_filter_count(dirs@, i as int);
        }
        if dirs[i] {
            if found.is_some() {
                proof {
                    lemma_prefix_filter_bound(dirs@, i + 1);
                    assert(dirs@.filter(|d: bool| d).len() >= 2);
                }
                return Err("zip has multiple top-level entries and no index.toml at root".to_owned());
            }
            found = Some(i);
        }
    }
    assert(dirs@.take(dirs.len() as int) =~= dirs@);
    match found {
        None => Err("zip is empty or has no index.toml".to_owned()),
        Some(k) => Ok(BundleRoot::Subdirectory(k)),
    }
}

/// A prefix never has more directories than the whole.
proof fn lemma_prefix_filter_bound(s: Seq<bool>, k: int)
    requires
        0 <= k <= s.len(),
    ensures
        s.take(k).filter(|d: bool| d).len() <= s.filter(|d: bool| d).len(),
    decreases s.len() - k,
{
    if k < s.len() {
        lemma_filter_count(s, k);
        lemma_prefix_filter_bound(s, k + 1);
    } else {
        assert(s.take(k) =~= s);
    }
}

} // verus!
