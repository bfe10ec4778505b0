//! How a file is served: size limits, HEAD, byte ranges, and the
//! response heads of each case.

use vstd::prelude::*;
use crate::paths::{extension_or_empty, plain_path};
use crate::protocol::response::{header, header_views, ResponseHead};
use crate::text::{
    chars_of, decimal, find_char, first_index_of, has_prefix, opt_view, parse_u64, parsed_u64,
    push_decimal, push_str, strip_prefix, u64_to_decimal, usize_to_decimal,
};
use vstd::string::StrSliceExecFns;

verus! {

/// The largest body, in bytes, served for a wallpaper file, and the largest
/// slice served for one range request.
pub const MAX_RESPONSE_BYTES: u64 = 4194304;

/// The largest body, in bytes, served whole for a user-chosen external
/// `file` input. Range requests still stream in `MAX_RESPONSE_BYTES`-sized
/// slices.
pub const MAX_EXTERNAL_RESPONSE_BYTES: u64 = 67108864;

/// How a file is answered, decided before its bytes are read.
#[derive(Debug)]
pub enum FilePlan {
    /// 413: the file is over the size limit.
    TooLarge,
    /// 200 to a HEAD request: headers only.
    HeadOnly { content_type: String, file_size: u64 },
    /// 206: bytes `start..=end` of the file.
    Partial { content_type: String, start: u64, end: u64, file_size: u64 },
    /// 416: the range cannot be served.
    Unsatisfiable { file_size: u64 },
    /// 200: the whole file.
    Full { content_type: String },
}

/// `FilePlan` with its strings taken by view.
pub enum FilePlanView {
    TooLarge,
    HeadOnly { content_type: Seq<char>, file_size: u64 },
    Partial { content_type: Seq<char>, start: u64, end: u64, file_size: u64 },
    Unsatisfiable { file_size: u64 },
    Full { content_type: Seq<char> },
}

impl View for FilePlan {
    type V = FilePlanView;

    open spec fn view(&self) -> FilePlanView {
        match self {
            FilePlan::TooLarge => FilePlanView::TooLarge,
            FilePlan::HeadOnly { content_type, file_size } => FilePlanView::HeadOnly {
                content_type: content_type@,
                file_size: *file_size,
            },
            FilePlan::Partial { content_type, start, end, file_size } => FilePlanView::Partial {
                content_type: content_type@,
                start: *start,
                end: *end,
                file_size: *file_size,
            },
            FilePlan::Unsatisfiable { file_size } => FilePlanView::Unsatisfiable {
                file_size: *file_size,
            },
            FilePlan::Full { content_type } => FilePlanView::Full { content_type: content_type@ },
        }
    }
}

/// The two pieces of `splitn(2, '-')`: before the first dash and after it,
/// the second empty when there is no dash.
pub open spec fn dash_pieces(s: Seq<char>) -> (Seq<char>, Seq<char>) {
    match first_index_of(s, '-') {
        Some(i) => (s.subrange(0, i), s.subrange(i + 1, s.len() as int)),
        None => (s, Seq::empty()),
    }
}

/// `a - b`, or 0 when `b > a`.
pub open spec fn saturating_sub(a: u64, b: u64) -> u64 {
    if b > a {
        0
    } else {
        (a - b) as u64
    }
}

/// `a + b`, or `u64::MAX` when that overflows.
pub open spec fn saturating_add(a: u64, b: u64) -> u64 {
    if a + b > u64::MAX {
        u64::MAX
    } else {
        (a + b) as u64
    }
}

/// The range `bytes={a}-{b}` asks for in a file of `size > 0` bytes, before
/// the slice limit: `-{n}` is the last `n` bytes; `{a}-` runs to the end;
/// `{a}-{b}` ends at `b` or the end, whichever is first; numbers that do not
/// parse count as 0 for the start and as the end for the end.
pub open spec fn requested_range(spec: Seq<char>, size: u64) -> (u64, u64) {
    let (a, b) = dash_pieces(spec);
    let last = (size - 1) as u64;
    if a.len() == 0 {
        let n = match parsed_u64(b) {
            Some(v) => v,
            None => 0,
        };
        (saturating_sub(size, n), last)
    } else {
        let start = match parsed_u64(a) {
            Some(v) => v,
            None => 0,
        };
        let end = if b.len() == 0 {
            last
        } else {
            match parsed_u64(b) {
                Some(v) => if v < last {
                    v
                } else {
                    last
                },
                None => last,
            }
        };
        (start, end)
    }
}

/// The bytes a `Range` header value asks for, limited to
/// `MAX_RESPONSE_BYTES` from the start; `None` when it cannot be served.
pub open spec fn range_to_serve(header: Seq<char>, size: u64) -> Option<(u64, u64)> {
    if has_prefix(header, "bytes="@) {
        let (start, end0) = requested_range(header.subrange(6, header.len() as int), size);
        let limit = saturating_add(start, (MAX_RESPONSE_BYTES - 1) as u64);
        let end = if end0 < limit {
            end0
        } else {
            limit
        };
        if start <= end && start < size {
            Some((start, end))
        } else {
            None
        }
    } else {
        None
    }
}

/// The plan for serving a file of `file_size` bytes with the given content
/// type: too large first, then HEAD, then a `Range` header, else the whole
/// file.
pub open spec fn file_plan_spec(
    content_type: Seq<char>,
    is_head: bool,
    file_size: u64,
    max_bytes: u64,
    range: Option<Seq<char>>,
) -> FilePlanView {
    if file_size > max_bytes {
        FilePlanView::TooLarge
    } else if is_head {
        FilePlanView::HeadOnly { content_type, file_size }
    } else {
        match range {
            Some(h) => match range_to_serve(h, file_size) {
                Some((start, end)) => FilePlanView::Partial { content_type, start, end, file_size },
                None => FilePlanView::Unsatisfiable { file_size },
            },
            None => FilePlanView::Full { content_type },
        }
    }
}

/// A range request computes `size - 1` for the end, so the handler only
/// takes one for a non-empty file.
pub open spec fn range_needs_nonempty(range: Option<Seq<char>>) -> bool {
    match range {
        Some(h) => has_prefix(h, "bytes="@),
        None => false,
    }
}

/// The plan for serving a file (see `file_plan_spec`) once its content type
/// is known.
pub fn plan_file_response_with_type(
    content_type: String,
    is_head: bool,
    file_size: u64,
    max_bytes: u64,
    range: Option<&str>,
) -> (p: FilePlan)
    requires
        !is_head && file_size <= max_bytes && range_needs_nonempty(
            opt_view(range),
        ) ==> file_size > 0,
    ensures
        p@ == file_plan_spec(
            content_type@,
            is_head,
            file_size,
            max_bytes,
            opt_view(range),
        ),
{
    if file_size > max_bytes {
        return FilePlan::TooLarge;
    }
    if is_head {
        return FilePlan::HeadOnly { content_type, file_size };
    }
    let h = match range {
        None => return FilePlan::Full { content_type },
        Some(h) => h,
    };
    let spec = match strip_prefix(h, "bytes=") {
        None => return FilePlan::Unsatisfiable { file_size },
        Some(spec) => spec,
    };
    proof {
        reveal_strlit("bytes=");
    }
    assert(spec@ == h@.subrange(6, h@.len() as int));
    let last = file_size - 1;
    proof {
        reveal_strlit("");
        assert(""@ =~= Seq::<char>::empty());
    }
    let (a, b) = match find_char(spec, '-') {
        Some(i) => {
            let n = spec.unicode_len();
            (spec.substring_char(0, i), spec.substring_char(i + 1, n))
        },
        None => (spec, ""),
    };
    assert((a@, b@) == dash_pieces(spec@));
    let (start, end0) = if a.is_empty() {
        let n = match parse_u64(b) {
            Some(v) => v,
            None => 0,
        };
        (if n > file_size { 0 } else { file_size - n }, last)
    } else {
        let start = match parse_u64(a) {
            Some(v) => v,
            None => 0,
        };
        let end = if b.is_empty() {
            last
        } else {
            match parse_u64(b) {
                Some(v) => if v < last { v } else { last },
                None => last,
            }
        };
        (start, end)
    };
    assert((start, end0) == requested_range(spec@, file_size));
    let limit = if start > u64::MAX - (MAX_RESPONSE_BYTES - 1) {
        u64::MAX
    } else {
        start + (MAX_RESPONSE_BYTES - 1)
    };
    let end = if end0 < limit { end0 } else { limit };
    if start <= end && start < file_size {
        FilePlan::Partial { content_type, start, end, file_size }
    } else {
        FilePlan::Unsatisfiable { file_size }
    }
}

/// What `mime_guess::from_ext(ext).first_or_octet_stream().to_string()`
/// gives: the first MIME type that `mime_guess`'s table lists for the
/// extension (matched without regard to case), else
/// `application/octet-stream`.
pub uninterp spec fn mime_for_extension(ext: Seq<char>) -> Seq<char>;

/// `mime_guess::from_path(path).first_or_octet_stream()`: `from_path` is
/// `from_ext` of the extension that `std::path::Path::extension` finds, or
/// an empty guess when there is none (as `from_ext("")` is), and
/// `first_or_octet_stream` falls back to `application/octet-stream`. Which
/// characters separate path components depends on the platform, so the
/// result is stated for plain paths (see `plain_path`), on which every
/// platform reads the same extension.
#[verifier::external_body]
fn guess_content_type(path: &str) -> (r: String)
    ensures
        plain_path(path@) ==> r@ == mime_for_extension(extension_or_empty(path@)),
{
    mime_guess::from_path(path).first_or_octet_stream().to_string()
}

/// The plan for serving the file at `path`: as `plan_file_response_with_type`
/// with the content type that `mime_guess` gives for the path.
pub fn plan_file_response(
    path: &str,
    is_head: bool,
    file_size: u64,
    max_bytes: u64,
    range: Option<&str>,
) -> (p: FilePlan)
    requires
        !is_head && file_size <= max_bytes && range_needs_nonempty(
            opt_view(range),
        ) ==> file_size > 0,
    ensures
        exists|ct: Seq<char>|
            p@ == #[trigger] file_plan_spec(
                ct,
                is_head,
                file_size,
                max_bytes,
                opt_view(range),
            ),
        plain_path(path@) ==> p@ == file_plan_spec(
            mime_for_extension(extension_or_empty(path@)),
            is_head,
            file_size,
            max_bytes,
            opt_view(range),
        ),
{
    let content_type = guess_content_type(path);
    let p = plan_file_response_with_type(content_type, is_head, file_size, max_bytes, range);
    assert(p@ == file_plan_spec(
        content_type@,
        is_head,
        file_size,
        max_bytes,
        opt_view(range),
    ));
    p
}

/// `bytes {start}-{end}/{size}`
pub open spec fn content_range(start: u64, end: u64, size: u64) -> Seq<char> {
    "bytes "@ + decimal(start as nat) + seq!['-'] + decimal(end as nat) + seq!['/'] + decimal(
        size as nat,
    )
}

/// `bytes */{size}`
pub open spec fn unsatisfied_range(size: u64) -> Seq<char> {
    "bytes */"@ + decimal(size as nat)
}

/// The status and headers for a plan; `body_len` is the length of the
/// whole file as read, which only the `Full` plan uses.
pub open spec fn plan_head_spec(plan: FilePlanView, body_len: nat) -> (u16, Seq<(Seq<char>, Seq<char>)>) {
    match plan {
        FilePlanView::TooLarge => (413, seq![("Accept-Ranges"@, "bytes"@)]),
        FilePlanView::HeadOnly { content_type, file_size } => (
            200,
            seq![
                ("Content-Type"@, content_type),
                ("Content-Length"@, decimal(file_size as nat)),
                ("Accept-Ranges"@, "bytes"@),
            ],
        ),
        FilePlanView::Partial { content_type, start, end, file_size } => (
            206,
            seq![
                ("Content-Type"@, content_type),
                ("Content-Length"@, decimal((end - start + 1) as nat)),
                ("Content-Range"@, content_range(start, end, file_size)),
                ("Accept-Ranges"@, "bytes"@),
            ],
        ),
        FilePlanView::Unsatisfiable { file_size } => (
            416,
            seq![("Content-Range"@, unsatisfied_range(file_size))],
        ),
        FilePlanView::Full { content_type } => (
            200,
            seq![
                ("Content-Type"@, content_type),
                ("Content-Length"@, decimal(body_len)),
                ("Accept-Ranges"@, "bytes"@),
            ],
        ),
    }
}

/// The 416 head, also sent when the file of a range request cannot be
/// opened.
pub fn unsatisfiable_head(file_size: u64) -> (h: ResponseHead)
    ensures
        (h.status, header_views(h.headers@)) == plan_head_spec(
            FilePlanView::Unsatisfiable { file_size },
            0,
        ),
{
    let mut v = "bytes */".to_owned();
    let d = u64_to_decimal(file_size);
    push_str(&mut v, d.as_str());
    let mut headers = Vec::new();
    headers.push(("Content-Range".to_owned(), v));
    assert(header_views(headers@) =~= seq![("Content-Range"@, unsatisfied_range(file_size))]);
    ResponseHead { status: 416, headers }
}

impl FilePlan {
    /// The status and headers of the response for this plan (see
    /// `plan_head_spec`).
    pub fn response_head(&self, body_len: usize) -> (h: ResponseHead)
        requires
            self@ matches FilePlanView::Partial { start, end, .. } ==> start <= end && end - start
                < u64::MAX,
        ensures
            (h.status, header_views(h.headers@)) == plan_head_spec(self@, body_len as nat),
    {
        match self {
            FilePlan::TooLarge => {
                let mut headers = Vec::new();
                headers.push(header("Accept-Ranges", "bytes"));
                assert(header_views(headers@) =~= seq![("Accept-Ranges"@, "bytes"@)]);
                ResponseHead { status: 413, headers }
            },
            FilePlan::HeadOnly { content_type, file_size } => {
                let mut headers = Vec::new();
                headers.push(("Content-Type".to_owned(), content_type.clone()));
                headers.push(("Content-Length".to_owned(), u64_to_decimal(*file_size)));
                headers.push(header("Accept-Ranges", "bytes"));
                assert(header_views(headers@) =~= plan_head_spec(self@, body_len as nat).1);
                ResponseHead { status: 200, headers }
            },
            FilePlan::Partial { content_type, start, end, file_size } => {
                let len: u64 = *end - *start + 1;
                let mut range = "bytes ".to_owned();
                push_decimal(&mut range, *start);
                proof {
                    reveal_strlit("-");
                    reveal_strlit("/");
                }
                push_str(&mut range, "-");
                push_decimal(&mut range, *end);
                push_str(&mut range, "/");
                push_decimal(&mut range, *file_size);
                assert(range@ =~= content_range(*start, *end, *file_size));
                let mut headers = Vec::new();
                headers.push(("Content-Type".to_owned(), content_type.clone()));
                headers.push(("Content-Length".to_owned(), u64_to_decimal(len)));
                headers.push(("Content-Range".to_owned(), range));
                headers.push(header("Accept-Ranges", "bytes"));
                assert(header_views(headers@) =~= plan_head_spec(self@, body_len as nat).1);
                ResponseHead { status: 206, headers }
            },
            FilePlan::Unsatisfiable { file_size } => unsatisfiable_head(*file_size),
            FilePlan::Full { content_type } => {
                let mut headers = Vec::new();
                headers.push(("Content-Type".to_owned(), content_type.clone()));
                headers.push(("Content-Length".to_owned(), usize_to_decimal(body_len)));
                headers.push(header("Accept-Ranges", "bytes"));
                assert(header_views(headers@) =~= plan_head_spec(self@, body_len as nat).1);
                ResponseHead { status: 200, headers }
            },
        }
    }
}

/// A planned range is never empty, never runs past the file, and is never
/// longer than `MAX_RESPONSE_BYTES`.
pub proof fn lemma_range_within_file(header: Seq<char>, size: u64)
    requires
        size > 0,
    ensures
        range_to_serve(header, size) matches Some((start, end)) ==> start <= end < size && end
            - start < MAX_RESPONSE_BYTES,
{
}

/// The response to a served file names the file's own content type: when
/// the answer is a 200 (HEAD or whole file) or a 206 (a range), its headers
/// hold `Content-Type` with exactly the content type the file was planned
/// with, and no other `Content-Type`; the whole file is sent with a
/// `Content-Length` of the bytes read.
pub proof fn lemma_served_content_type(
    ct: Seq<char>,
    is_head: bool,
    file_size: u64,
    max_bytes: u64,
    range: Option<Seq<char>>,
    body_len: nat,
)
    ensures
        ({
            let h = plan_head_spec(file_plan_spec(ct, is_head, file_size, max_bytes, range), body_len);
            &&& (h.0 == 200 || h.0 == 206) ==> h.1.contains(("Content-Type"@, ct))
            &&& forall|i: int|
                0 <= i < h.1.len() && (#[trigger] h.1[i]).0 == "Content-Type"@ ==> h.1[i].1 == ct
            &&& (file_size <= max_bytes && !is_head && range is None) ==> h.0 == 200
                && h.1.contains(("Content-Length"@, decimal(body_len)))
        }),
{
    reveal_strlit("Content-Type");
    reveal_strlit("Content-Length");
    reveal_strlit("Content-Range");
    reveal_strlit("Accept-Ranges");
    let h = plan_head_spec(file_plan_spec(ct, is_head, file_size, max_bytes, range), body_len);
    assert("Content-Type"@[8] != "Content-Length"@[8]);
    assert("Content-Type"@.len() != "Content-Range"@.len());
    assert("Content-Type"@[0] != "Accept-Ranges"@[0]);
    if h.0 == 200 || h.0 == 206 {
        assert(h.1[0] == ("Content-Type"@, ct));
    }
    if file_size <= max_bytes && !is_head && range is None {
        assert(h.1[1] == ("Content-Length"@, decimal(body_len)));
    }
}

} // verus!
