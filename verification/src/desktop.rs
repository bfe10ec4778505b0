//! Decisions behind the per-monitor desktop windows: window labels, the
//! configuration a wallpaper page receives, and which windows to create or
//! drop when monitors or the configuration change.

use vstd::prelude::*;
use vstd::utf8::encode_utf8;
use crate::config::{monitor_config_for, Config, MonitorConfig, Scalar, WallpaperConfig};
use crate::encoding::{encode_path_segment, encode_path_segment_bytes};
use crate::wallpapers::{
    defaults_of, schema_entries, schema_keys_distinct, WallpaperConfigSchema, WallpaperManifest,
};
use crate::string_map::{entries_map, keys_distinct, lemma_entries_map};
use crate::text::{lemma_decimal_roundtrip, parse_usize, push_decimal, push_str, strip_prefix};
use crate::protocol::host::{monitor_number, monitor_prefix};
use crate::paths::{final_piece, is_suffix_of, last_piece_any, named_path, plain_path};

verus! {

/// `/.underpane/external-file/`
pub open spec fn proxy_prefix() -> Seq<char> {
    "/.underpane/external-file/"@
}

/// The domain-relative proxy path of a `file` input: the input key, then
/// the percent-encoded file name (`file` when the path has none).
pub open spec fn proxy_path_spec(key: Seq<char>, file_name: Option<Seq<char>>) -> Seq<char> {
    let name = match file_name {
        Some(n) => n,
        None => "file"@,
    };
    proxy_prefix() + key + seq!['/'] + encode_path_segment_bytes(encode_utf8(name))
}

/// Builds the proxy path of a `file` input (see `proxy_path_spec`).
pub fn proxy_path(key: &str, file_name: Option<&str>) -> (p: String)
    ensures
        p@ == proxy_path_spec(
            key@,
            match file_name {
                Some(n) => Some(n@),
                None => None,
            },
        ),
{
    let mut p = "/.underpane/external-file/".to_owned();
    push_str(&mut p, key);
    proof {
        reveal_strlit("/");
    }
    push_str(&mut p, "/");
    let name = match file_name {
        Some(n) => n,
        None => "file",
    };
    let enc = encode_path_segment(name);
    push_str(&mut p, enc.as_str());
    p
}

/// `std::path::Path::file_name`, read back as a string: the last normal
/// component of `path`. Which characters separate components depends on the
/// platform (`/` does everywhere, `\` on Windows, where a leading `//` or a
/// `:` starts a prefix): an empty path has no file name, a file name is
/// non-empty and holds no `/`, and a plain path (see `plain_path`), which
/// has no prefix and no other separator on any platform, has its last piece
/// as file name. A path with a name after its last separator of either
/// kind (see `named_path`) has a file name on every platform, which ends
/// the path and ends with that name.
#[verifier::external_body]
fn path_file_name(path: &str) -> (r: Option<String>)
    ensures
        path@.len() == 0 ==> r is None,
        plain_path(path@) ==> r is Some,
        named_path(path@) ==> r is Some,
        r matches Some(n) ==> n@.len() > 0 && !n@.contains('/') && (plain_path(path@) ==> n@
            == final_piece(path@)),
        r matches Some(n) ==> (named_path(path@) ==> is_suffix_of(last_piece_any(path@), n@)
            && is_suffix_of(n@, path@)),
{
    std::path::Path::new(path).file_name().map(|s| s.to_string_lossy().into_owned())
}

/// Whether a value is a non-empty string.
pub open spec fn nonempty_string(v: Scalar) -> bool {
    v matches Scalar::String(p) && p@.len() > 0
}

/// Whether `n` can be a file name that `Path::file_name` gives: none, or a
/// non-empty name without `/`.
pub open spec fn file_name_shape(n: Option<Seq<char>>) -> bool {
    n matches Some(x) ==> x.len() > 0 && !x.contains('/')
}

/// Whether `v` is the proxy path of the `file` input `k` whose configured
/// path is `original`: for a plain path (see `plain_path`) it carries the
/// path's last piece as file name; for another path, a name of the shape
/// `Path::file_name` gives, or `file` when there is none, and for a path
/// that has a file name on every platform (see `named_path`) a name that
/// ends the path and ends with what follows its last separator.
pub open spec fn proxy_value_for(v: Scalar, k: Seq<char>, original: Seq<char>) -> bool {
    v matches Scalar::String(s) && if plain_path(original) {
        s@ == proxy_path_spec(k, Some(final_piece(original)))
    } else {
        exists|n: Option<Seq<char>>|
            file_name_shape(n) && (named_path(original) ==> (n matches Some(x) && is_suffix_of(
                last_piece_any(original),
                x,
            ) && is_suffix_of(x, original))) && s@ == #[trigger] proxy_path_spec(k, n)
    }
}

/// Whether one of the first `upto` inputs is a `file` input keyed `k`.
pub open spec fn file_input_among(
    entries: Seq<(Seq<char>, WallpaperConfigSchema)>,
    k: Seq<char>,
    upto: int,
) -> bool {
    exists|j: int| 0 <= j < upto && entries[j].0 == k && #[trigger] entries[j].1 is File
}

/// The configuration a wallpaper page gets: the user's values over the
/// manifest's defaults, with each non-empty `file` input replaced by a
/// proxy path (its file name coming from the platform's path rules).
pub open spec fn page_config_ok(
    result: Map<Seq<char>, Scalar>,
    user: Map<Seq<char>, Scalar>,
    manifest: Option<Seq<(Seq<char>, WallpaperConfigSchema)>>,
) -> bool {
    match manifest {
        None => result == user,
        Some(entries) => {
            let merged = defaults_of(entries).union_prefer_right(user);
            &&& result.dom() == merged.dom()
            &&& forall|k: Seq<char>|
                #![trigger result[k]]
                merged.contains_key(k) ==> if file_input_among(entries, k, entries.len() as int)
                    && nonempty_string(merged[k]) {
                    proxy_value_for(result[k], k, merged[k]->String_0@)
                } else {
                    result[k] == merged[k]
                }
        },
    }
}

/// The manifest's inputs, if there is a manifest.
pub open spec fn manifest_entries(m: Option<&WallpaperManifest>) -> Option<
    Seq<(Seq<char>, WallpaperConfigSchema)>,
> {
    match m {
        Some(m) => Some(schema_entries(m.config)),
        None => None,
    }
}

/// The configuration that the wallpaper page of a monitor receives: the
/// monitor's values over the manifest's declared defaults, and each
/// non-empty `file` input rewritten from its on-disk path to a
/// domain-relative proxy path under the page's own origin, which the
/// protocol handler maps back to the file (see `page_config_ok`). Without a
/// manifest the monitor's configuration is passed on unchanged.
pub fn monitor_page_config(mc: MonitorConfig, manifest: Option<&WallpaperManifest>) -> (r: MonitorConfig)
    ensures
        r.wallpaper == mc.wallpaper,
        page_config_ok(r.config@, mc.config@, manifest_entries(manifest)),
{
    let ghost wallpaper = mc.wallpaper;
    let ghost user = mc.config@;
    let mut mc = mc;
    let m = match manifest {
        None => return mc,
        Some(m) => m,
    };
    let defaults = m.default_config();
    let d = defaults.entries();
    proof {
        lemma_entries_map(d@);
    }
    for i in 0..d.len()
        invariant
            keys_distinct(d@),
            mc.wallpaper == wallpaper,
            mc.config@ == entries_map(d@.take(i as int)).union_prefer_right(user),
    {
        let k = d[i].0.clone();
        let v = d[i].1.clone();
        proof {
            assert(keys_distinct(d@.take(i as int))) by {
                assert forall|a: int, b: int| 0 <= a < b < d@.take(i as int).len() implies d@.take(
                    i as int,
                )[a].0@ != d@.take(i as int)[b].0@ by {
                    assert(d@[a].0@ != d@[b].0@);
                }
            }
            lemma_entries_map(d@.take(i as int));
            assert(!entries_map(d@.take(i as int)).contains_key(d@[i as int].0@)) by {
                if entries_map(d@.take(i as int)).contains_key(d@[i as int].0@) {
                    let j = choose|j: int| 0 <= j < i && d@.take(i as int)[j].0@ == d@[i as int].0@;
                    assert(d@[j].0@ != d@[i as int].0@);
                }
            }
            assert(d@.take(i + 1).drop_last() =~= d@.take(i as int));
        }
        mc.config.insert_if_absent(k, v);
        assert(mc.config@ =~= entries_map(d@.take(i + 1)).union_prefer_right(user));
    }
    assert(d@.take(d.len() as int) =~= d@);
    let ghost entries = schema_entries(m.config);
    let ghost merged = defaults_of(entries).union_prefer_right(user);
    assert(mc.config@ == merged);
    let n = m.len_of();
    for i in 0..n
        invariant
            n == entries.len(),
            entries == schema_entries(m.config),
            schema_keys_distinct(entries),
            merged == defaults_of(entries).union_prefer_right(user),
            mc.wallpaper == wallpaper,
            mc.config@.dom() == merged.dom(),
            forall|k: Seq<char>|
                #![trigger mc.config@[k]]
                merged.contains_key(k) ==> if file_input_among(entries, k, i as int)
                    && nonempty_string(merged[k]) {
                    proxy_value_for(mc.config@[k], k, merged[k]->String_0@)
                } else {
                    mc.config@[k] == merged[k]
                },
    {
        let ghost before = mc.config@;
        let (key, schema) = m.entry_at(i);
        let ghost k0 = key@;
        proof {
            assert(entries[i as int].0 == k0);
            assert(entries[i as int].1 == *schema);
            assert(!file_input_among(entries, k0, i as int)) by {
                if file_input_among(entries, k0, i as int) {
                    let j = choose|j: int|
                        0 <= j < i && entries[j].0 == k0 && #[trigger] entries[j].1 is File;
                    assert(entries[j].0 != entries[i as int].0);
                }
            }
            if merged.contains_key(k0) {
                assert(before[k0] == merged[k0]);
            }
        }
        let rewrite = match schema {
            WallpaperConfigSchema::File { .. } => match mc.config.get(key.as_str()) {
                Some(Scalar::String(path)) => if path.as_str().is_empty() {
                    None
                } else {
                    let name = path_file_name(path.as_str());
                    let p = match &name {
                        Some(s) => proxy_path(key.as_str(), Some(s.as_str())),
                        None => proxy_path(key.as_str(), None),
                    };
                    proof {
                        let wit: Option<Seq<char>> = match &name {
                            Some(s) => Some(s@),
                            None => None,
                        };
                        assert(file_name_shape(wit));
                        assert(p@ == proxy_path_spec(k0, wit));
                        assert(proxy_value_for(Scalar::String(p), k0, path@));
                    }
                    Some(p)
                },
                _ => None,
            },
            _ => None,
        };
        assert(rewrite is Some ==> (*schema is File) && before.contains_key(k0) && nonempty_string(
            before[k0],
        ) && proxy_value_for(Scalar::String(rewrite->0), k0, before[k0]->String_0@));
        assert((*schema is File) && before.contains_key(k0) && nonempty_string(before[k0])
            ==> rewrite is Some);
        match rewrite {
            Some(p) => {
                mc.config.insert(key.clone(), Scalar::String(p));
            },
            None => {},
        }
        proof {
            assert forall|k: Seq<char>|
                #![trigger mc.config@[k]]
                merged.contains_key(k) implies if file_input_among(entries, k, i + 1)
                    && nonempty_string(merged[k]) {
                    proxy_value_for(mc.config@[k], k, merged[k]->String_0@)
                } else {
                    mc.config@[k] == merged[k]
                } by {
                if k != k0 {
                    assert(mc.config@[k] == before[k]);
                    if file_input_among(entries, k, i + 1) {
                        let j = choose|j: int|
                            0 <= j < i + 1 && entries[j].0 == k && #[trigger] entries[j].1 is File;
                        assert(j != i);
                        assert(file_input_among(entries, k, i as int));
                    }
                } else {
                    if file_input_among(entries, k, i + 1) {
                        let j = choose|j: int|
                            0 <= j < i + 1 && entries[j].0 == k && #[trigger] entries[j].1 is File;
                        assert(j == i);
                    }
                    if *schema is File {
                        assert(file_input_among(entries, k, i + 1));
                    }
                }
            }
        }
    }
    mc
}

/// Every non-empty `file` input whose configured path has a file name on
/// every platform (see `named_path`) reaches the page as
/// `/.underpane/external-file/{key}/{name}`, where `name` is the
/// percent-encoding of a file name that ends the configured path and ends
/// with what follows its last `/` or `\`: the file's name is kept, and
/// `file` never stands in for it.
pub proof fn lemma_page_config_keeps_file_names(
    result: Map<Seq<char>, Scalar>,
    user: Map<Seq<char>, Scalar>,
    entries: Seq<(Seq<char>, WallpaperConfigSchema)>,
    k: Seq<char>,
    path: Seq<char>,
)
    requires
        page_config_ok(result, user, Some(entries)),
        exists|j: int| 0 <= j < entries.len() && entries[j].0 == k && #[trigger] entries[j].1 is File,
        defaults_of(entries).union_prefer_right(user).contains_key(k),
        defaults_of(entries).union_prefer_right(user)[k] matches Scalar::String(p) && p@ == path,
        named_path(path),
    ensures
        result[k] matches Scalar::String(s) && exists|n: Seq<char>|
            #![trigger encode_utf8(n)]
            n.len() > 0 && is_suffix_of(last_piece_any(path), n) && is_suffix_of(n, path) && s@
                == "/.underpane/external-file/"@ + k + seq!['/'] + encode_path_segment_bytes(
                encode_utf8(n),
            ),
{
    assert(file_input_among(entries, k, entries.len() as int));
    let merged = defaults_of(entries).union_prefer_right(user);
    assert(last_piece_any(path).len() > 0);
    assert(path.len() > 0) by {
        if path.len() == 0 {
            assert(last_piece_any(path).len() == 0);
        }
    }
    assert(nonempty_string(merged[k]));
    assert(proxy_value_for(result[k], k, path));
    let s = result[k]->String_0;
    if plain_path(path) {
        crate::paths::lemma_final_piece_without_backslash(path);
        let n = final_piece(path);
        assert(s@ == proxy_path_spec(k, Some(n)));
        assert(n.subrange(0, n.len() as int) =~= n);
        assert(is_suffix_of(last_piece_any(path), n));
        assert(n.len() > 0 && is_suffix_of(n, path));
        assert(encode_utf8(n) == encode_utf8(n));
    } else {
        let o = choose|o: Option<Seq<char>>|
            file_name_shape(o) && (named_path(path) ==> (o matches Some(x) && is_suffix_of(
                last_piece_any(path),
                x,
            ) && is_suffix_of(x, path))) && s@ == #[trigger] proxy_path_spec(k, o);
        let n = o->0;
        assert(s@ == proxy_path_spec(k, Some(n)));
        assert(n.len() > 0 && is_suffix_of(last_piece_any(path), n) && is_suffix_of(n, path));
        assert(encode_utf8(n) == encode_utf8(n));
    }
}

/// `monitor-{i1}`, the label of the window of the monitor with 0-based
/// `index`.
pub open spec fn monitor_label_spec(index: nat) -> Seq<char> {
    monitor_prefix() + crate::text::decimal(index + 1)
}

/// The label of the window of the monitor with 0-based `index`.
pub fn monitor_label(index: usize) -> (l: String)
    requires
        index < usize::MAX,
    ensures
        l@ == monitor_label_spec(index as nat),
{
    let mut l = String::new();
    proof {
        reveal_strlit("monitor-");
        assert("monitor-"@ =~= monitor_prefix());
    }
    push_str(&mut l, "monitor-");
    push_decimal(&mut l, (index + 1) as u64);
    l
}

/// The 0-based monitor index that a window label names, or the error the
/// command answers with: `monitor-{n}` with `n >= 1` names monitor `n - 1`.
pub open spec fn label_index(label: Seq<char>) -> Result<usize, Seq<char>> {
    match monitor_number(label) {
        None => Err("not a monitor window"@),
        Some(n) => if n == 0 {
            Err("invalid monitor index"@)
        } else {
            Ok((n - 1) as usize)
        },
    }
}

/// The 0-based monitor index of a wallpaper window, from its label.
pub fn monitor_index_from_label(label: &str) -> (r: Result<usize, String>)
    ensures
        match r {
            Ok(i) => label_index(label@) == Ok::<usize, Seq<char>>(i),
            Err(e) => label_index(label@) == Err::<usize, Seq<char>>(e@),
        },
{
    proof {
        reveal_strlit("monitor-");
        assert("monitor-"@ =~= monitor_prefix());
    }
    let n = match strip_prefix(label, "monitor-") {
        Some(rest) => parse_usize(rest),
        None => None,
    };
    match n {
        None => Err("not a monitor window".to_owned()),
        Some(i1) => if i1 == 0 {
            Err("invalid monitor index".to_owned())
        } else {
            Ok(i1 - 1)
        },
    }
}

/// The label of a monitor's window names that monitor again.
pub proof fn lemma_monitor_label_roundtrip(index: usize)
    requires
        index < usize::MAX,
    ensures
        label_index(monitor_label_spec(index as nat)) == Ok::<usize, Seq<char>>(index),
{
    let n = (index + 1) as nat;
    let l = monitor_label_spec(index as nat);
    lemma_decimal_roundtrip(n);
    assert(l.subrange(0, 8) =~= monitor_prefix());
    assert(l.subrange(8, l.len() as int) =~= crate::text::decimal(n));
}

/// Commands that only the configuration window may call check its label.
pub fn require_config_window(label: &str) -> (r: Result<(), String>)
    ensures
        r is Ok <==> label@ == "config"@,
        r matches Err(e) ==> e@ == "not the config window"@,
{
    if crate::text::str_equal(label, "config") {
        Ok(())
    } else {
        Err("not the config window".to_owned())
    }
}

/// What to do with one monitor's window slot when monitors or the
/// configuration change.
#[derive(Clone, Copy, Debug, PartialEq, Eq, Structural)]
pub enum SlotAction {
    /// The monitor is configured and already has its window.
    Keep,
    /// The monitor is configured and has no window yet: create one.
    Create,
    /// The monitor is not configured: drop its window, if any.
    Clear,
}

/// The action for slot `i`, given whether a window stands there now.
pub open spec fn slot_action(config: Config, i: nat, present: bool) -> SlotAction {
    if monitor_config_for(config.monitors@, i) is Some {
        if present {
            SlotAction::Keep
        } else {
            SlotAction::Create
        }
    } else {
        SlotAction::Clear
    }
}

/// Plans the window slots for `monitor_count` monitors. `present[i]` tells
/// whether slot `i` holds a window now; slots past the end of `present`
/// hold none, and slots past `monitor_count` are dropped. A monitor ends up
/// with a window exactly when the configuration applies to it.
pub fn plan_window_sync(config: &Config, monitor_count: usize, present: &[bool]) -> (plan: Vec<
    SlotAction,
>)
    ensures
        plan@.len() == monitor_count,
        forall|i: int|
            0 <= i < monitor_count ==> plan@[i] == slot_action(
                *config,
                i as nat,
                i < present@.len() && present@[i],
            ),
{
    let mut plan: Vec<SlotAction> = Vec::new();
    for i in 0..monitor_count
        invariant
            plan@.len() == i,
            forall|j: int|
                0 <= j < i ==> plan@[j] == slot_action(
                    *config,
                    j as nat,
                    j < present@.len() && present@[j],
                ),
    {
        let here = i < present.len() && present[i];
        let a = match config.get_monitor_config(i) {
            Some(_) => if here {
                SlotAction::Keep
            } else {
                SlotAction::Create
            },
            None => SlotAction::Clear,
        };
        plan.push(a);
    }
    plan
}

} // verus!
