//! The hosts that address a monitor's wallpaper realms, and the origins
//! and addresses built from them.

use vstd::prelude::*;
use crate::config::valid_wallpaper_id;
use crate::text::{
    decimal, has_prefix, is_digit, lemma_decimal_digits, lemma_decimal_roundtrip,
    lemma_split_on_concat, lemma_split_on_no_sep, parse_usize, parsed_usize, push_decimal, push_str,
    split_char, split_on, strip_prefix, views_of,
};

verus! {

/// A parsed `underpane://` host of the form `monitor-{i1}.{id}.{realm}` (with
/// an optional leading `underpane` scheme segment on Windows).
#[derive(Clone, Debug)]
pub struct Target {
    pub realm: String,
    /// 0-based monitor index.
    pub index: usize,
    pub id: String,
}

/// `monitor-`
pub open spec fn monitor_prefix() -> Seq<char> {
    seq!['m', 'o', 'n', 'i', 't', 'o', 'r', '-']
}

/// `underpane`, the scheme segment that WebView2 puts in front of the host.
pub open spec fn underpane_label() -> Seq<char> {
    seq!['u', 'n', 'd', 'e', 'r', 'p', 'a', 'n', 'e']
}

/// The number in a `monitor-{n}` segment, if the segment has that form.
pub open spec fn monitor_number(seg: Seq<char>) -> Option<usize> {
    if has_prefix(seg, monitor_prefix()) {
        parsed_usize(seg.subrange(8, seg.len() as int))
    } else {
        None
    }
}

/// Whether a host segment is `monitor-{n}` with `n >= 1`.
pub open spec fn is_monitor_segment(seg: Seq<char>) -> bool {
    match monitor_number(seg) {
        Some(n) => n > 0,
        None => false,
    }
}

/// The position of the first `monitor-{n}` segment at or after `from`.
pub open spec fn first_monitor_segment(parts: Seq<Seq<char>>, from: int) -> Option<int>
    decreases parts.len() - from,
{
    if from < 0 || from >= parts.len() {
        None
    } else if is_monitor_segment(parts[from]) {
        Some(from)
    } else {
        first_monitor_segment(parts, from + 1)
    }
}

/// The `(realm, index, id)` that a host names: the segments after the first
/// `monitor-{n}` segment are the id and the realm, both non-empty, and the
/// index is `n - 1`.
pub open spec fn host_target(host: Seq<char>) -> Option<(Seq<char>, usize, Seq<char>)> {
    let parts = split_on(host, '.');
    match first_monitor_segment(parts, 0) {
        Some(p) => if p + 2 < parts.len() && parts[p + 1].len() > 0 && parts[p + 2].len() > 0 {
            Some((parts[p + 2], (monitor_number(parts[p]).unwrap() - 1) as usize, parts[p + 1]))
        } else {
            None
        },
        None => None,
    }
}

/// The number in a `monitor-{n}` segment.
fn monitor_segment_number(seg: &str) -> (n: Option<usize>)
    ensures
        n == monitor_number(seg@),
{
    proof {
        reveal_strlit("monitor-");
        assert("monitor-"@ =~= monitor_prefix());
    }
    match strip_prefix(seg, "monitor-") {
        Some(rest) => parse_usize(rest),
        None => None,
    }
}

/// Parses an `underpane://` host into the realm, monitor index and id it
/// addresses. Anchoring on the numeric `monitor-{n}` segment makes the
/// dot-free `id`/`realm` segments and the Windows prefix parse
/// unambiguously.
pub fn parse_host(host: &str) -> (r: Option<Target>)
    ensures
        match r {
            Some(t) => host_target(host@) == Some((t.realm@, t.index, t.id@)) && t.index < usize::MAX,
            None => host_target(host@) is None,
        },
{
    let parts = split_char(host, '.');
    let ghost ps = views_of(parts@);
    let n = parts.len();
    let mut i: usize = 0;
    while i < n
        invariant
            n == parts@.len(),
            ps == views_of(parts@),
            ps == split_on(host@, '.'),
            i <= n,
            first_monitor_segment(ps, 0) == first_monitor_segment(ps, i as int),
        decreases n - i,
    {
        assert(ps[i as int] == parts@[i as int]@);
        let found = match monitor_segment_number(parts[i]) {
            Some(k) => k > 0,
            None => false,
        };
        if found {
            let k = monitor_segment_number(parts[i]).unwrap();
            let index = k - 1;
            if i + 1 < n && i + 2 < n {
                let id = parts[i + 1];
                let realm = parts[i + 2];
                assert(ps[i + 1] == id@);
                assert(ps[i + 2] == realm@);
                if id.is_empty() || realm.is_empty() {
                    return None;
                }
                return Some(Target { realm: realm.to_owned(), index, id: id.to_owned() });
            }
            return None;
        }
        i = i + 1;
    }
    None
}

/// `monitor-{i1}.{id}.{realm}` for the monitor with 0-based `index`.
pub open spec fn monitor_host(index: nat, id: Seq<char>, realm: Seq<char>) -> Seq<char> {
    monitor_prefix() + decimal(index + 1) + seq!['.'] + id + seq!['.'] + realm
}

/// The `monitor-{i1}` segment has no dot.
proof fn lemma_monitor_segment(index: usize)
    requires
        index < usize::MAX,
    ensures
        !(monitor_prefix() + decimal((index + 1) as nat)).contains('.'),
        is_monitor_segment(monitor_prefix() + decimal((index + 1) as nat)),
        monitor_number(monitor_prefix() + decimal((index + 1) as nat)) == Some((index + 1) as usize),
{
    let n = (index + 1) as nat;
    let m = monitor_prefix() + decimal(n);
    lemma_decimal_digits(n);
    lemma_decimal_roundtrip(n);
    assert(m.subrange(0, 8) =~= monitor_prefix());
    assert(m.subrange(8, m.len() as int) =~= decimal(n));
    if m.contains('.') {
        let i = choose|i: int| 0 <= i < m.len() && m[i] == '.';
        if i >= 8 {
            assert(m[i] == decimal(n)[i - 8]);
            assert(is_digit(decimal(n)[i - 8]));
        }
    }
}

/// The host of a monitor's realm parses back to that realm, monitor and id,
/// with or without the leading `underpane` segment that Windows adds, when
/// the id and the realm are non-empty and hold no dot.
pub proof fn lemma_parse_monitor_host(index: usize, id: Seq<char>, realm: Seq<char>)
    requires
        index < usize::MAX,
        id.len() > 0,
        realm.len() > 0,
        !id.contains('.'),
        !realm.contains('.'),
    ensures
        host_target(monitor_host(index as nat, id, realm)) == Some((realm, index, id)),
        host_target(underpane_label() + seq!['.'] + monitor_host(index as nat, id, realm)) == Some(
            (realm, index, id),
        ),
{
    let m = monitor_prefix() + decimal((index + 1) as nat);
    lemma_monitor_segment(index);
    let tail = id.push('.') + realm;
    lemma_split_on_concat(id, realm, '.');
    lemma_split_on_no_sep(id, '.');
    lemma_split_on_no_sep(realm, '.');
    lemma_split_on_no_sep(m, '.');
    let host = monitor_host(index as nat, id, realm);
    assert(host =~= m.push('.') + tail);
    lemma_split_on_concat(m, tail, '.');
    let parts = split_on(host, '.');
    assert(parts =~= seq![m, id, realm]);
    assert(first_monitor_segment(parts, 0) == Some(0int));

    let u = underpane_label();
    lemma_split_on_no_sep(u, '.');
    let long = u + seq!['.'] + host;
    assert(long =~= u.push('.') + host);
    lemma_split_on_concat(u, host, '.');
    let lparts = split_on(long, '.');
    assert(lparts =~= seq![u, m, id, realm]);
    assert(u.subrange(0, 8) != monitor_prefix()) by {
        assert(u.subrange(0, 8)[0] != monitor_prefix()[0]);
    }
    assert(!is_monitor_segment(u));
    assert(first_monitor_segment(lparts, 0) == first_monitor_segment(lparts, 1));
    assert(first_monitor_segment(lparts, 1) == Some(1int));
}

/// Builds the host `monitor-{i1}.{id}.{realm}` of a monitor's realm.
pub fn monitor_host_name(index: usize, id: &str, realm: &str) -> (h: String)
    requires
        index < usize::MAX,
    ensures
        h@ == monitor_host(index as nat, id@, realm@),
{
    let mut h = String::new();
    proof {
        reveal_strlit("monitor-");
        reveal_strlit(".");
    }
    push_str(&mut h, "monitor-");
    push_decimal(&mut h, (index + 1) as u64);
    push_str(&mut h, ".");
    push_str(&mut h, id);
    push_str(&mut h, ".");
    push_str(&mut h, realm);
    assert(h@ =~= monitor_host(index as nat, id@, realm@));
    h
}

/// `underpane://`
pub open spec fn scheme_origin_prefix() -> Seq<char> {
    seq!['u', 'n', 'd', 'e', 'r', 'p', 'a', 'n', 'e', ':', '/', '/']
}

/// `http://underpane.`, the form that WebView2 gives custom-scheme origins.
pub open spec fn http_origin_prefix() -> Seq<char> {
    seq!['h', 't', 't', 'p', ':', '/', '/', 'u', 'n', 'd', 'e', 'r', 'p', 'a', 'n', 'e', '.']
}

/// The origin that serves `realm` for the wallpaper `id` on the monitor with
/// 0-based `index`: `underpane://monitor-{i1}.{id}.{realm}`, or, in the form
/// that WebView2 maps custom schemes to,
/// `http://underpane.monitor-{i1}.{id}.{realm}`.
pub open spec fn realm_origin_spec(realm: Seq<char>, index: nat, id: Seq<char>, http_form: bool) -> Seq<
    char,
> {
    (if http_form {
        http_origin_prefix()
    } else {
        scheme_origin_prefix()
    }) + monitor_host(index, id, realm)
}

/// The origin of a monitor's wallpaper realm (see `realm_origin_spec`).
pub fn realm_origin(realm: &str, index: usize, id: &str, http_form: bool) -> (o: String)
    requires
        index < usize::MAX,
    ensures
        o@ == realm_origin_spec(realm@, index as nat, id@, http_form),
{
    let mut o = String::new();
    if http_form {
        proof {
            reveal_strlit("http://underpane.");
        }
        push_str(&mut o, "http://underpane.");
    } else {
        proof {
            reveal_strlit("underpane://");
        }
        push_str(&mut o, "underpane://");
    }
    let host = monitor_host_name(index, id, realm);
    push_str(&mut o, host.as_str());
    assert(o@ =~= realm_origin_spec(realm@, index as nat, id@, http_form));
    o
}

/// `monitor-{i1}.{wallpaper}`, the host of a monitor's wallpaper page.
pub open spec fn wallpaper_host_spec(index: nat, wallpaper: Seq<char>) -> Seq<char> {
    monitor_prefix() + decimal(index + 1) + seq!['.'] + wallpaper
}

/// The host `monitor-{i1}.{wallpaper}` of a monitor's wallpaper page.
pub fn wallpaper_host(index: usize, wallpaper: &str) -> (h: String)
    requires
        index < usize::MAX,
    ensures
        h@ == wallpaper_host_spec(index as nat, wallpaper@),
{
    let mut h = String::new();
    proof {
        reveal_strlit("monitor-");
        reveal_strlit(".");
    }
    push_str(&mut h, "monitor-");
    push_decimal(&mut h, (index + 1) as u64);
    push_str(&mut h, ".");
    push_str(&mut h, wallpaper);
    assert(h@ =~= wallpaper_host_spec(index as nat, wallpaper@));
    h
}

/// `http://underpane-wallpaper.`
pub open spec fn http_wallpaper_prefix() -> Seq<char> {
    seq![
        'h', 't', 't', 'p', ':', '/', '/', 'u', 'n', 'd', 'e', 'r', 'p', 'a', 'n', 'e', '-', 'w',
        'a', 'l', 'l', 'p', 'a', 'p', 'e', 'r', '.',
    ]
}

/// The address that WebView2 navigates to for a monitor's wallpaper page:
/// its custom-scheme URL rewritten as
/// `http://underpane-wallpaper.monitor-{i1}.{wallpaper}`.
pub fn wallpaper_http_address(index: usize, wallpaper: &str) -> (a: String)
    requires
        index < usize::MAX,
    ensures
        a@ == http_wallpaper_prefix() + wallpaper_host_spec(index as nat, wallpaper@),
{
    let mut a = String::new();
    proof {
        reveal_strlit("http://underpane-wallpaper.");
    }
    push_str(&mut a, "http://underpane-wallpaper.");
    let h = wallpaper_host(index, wallpaper);
    push_str(&mut a, h.as_str());
    a
}

/// A valid wallpaper id fits in a host: the host of any realm of that
/// wallpaper on any monitor parses back to the realm, the monitor and the
/// id, with or without the Windows `underpane` segment.
pub proof fn lemma_wallpaper_id_host(index: usize, id: Seq<char>, realm: Seq<char>)
    requires
        index < usize::MAX,
        valid_wallpaper_id(id),
        realm.len() > 0,
        !realm.contains('.'),
    ensures
        host_target(monitor_host(index as nat, id, realm)) == Some((realm, index, id)),
        host_target(underpane_label() + seq!['.'] + monitor_host(index as nat, id, realm)) == Some(
            (realm, index, id),
        ),
{
    if id.contains('.') {
        let i = choose|i: int| 0 <= i < id.len() && id[i] == '.';
        assert(crate::config::is_id_char(id[i]));
    }
    lemma_parse_monitor_host(index, id, realm);
}

} // verus!
