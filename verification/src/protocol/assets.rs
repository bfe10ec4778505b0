//! Resolving `asset`-realm paths to the configured `file` and `directory`
//! inputs of a wallpaper.

use vstd::prelude::*;
use crate::config::{monitor_config_for, Config, Scalar};
use crate::encoding::{decode_path_segment, decoded_path_segment};
use crate::text::{find_char, first_index_of, split_char, split_on, str_equal, views_of};
use crate::wallpapers::{schema_entries, schema_lookup, WallpaperConfigSchema, WallpaperManifest};

verus! {

/// A configured `file` or `directory` input that an `asset`-realm request
/// resolves to, before the disk is consulted.
#[derive(Debug)]
pub enum ExternalTarget {
    /// The configured file itself; the rest of the URL path is ignored.
    File { disk_path: String },
    /// The configured folder and the decoded sub-path segments to walk
    /// inside it, one directory level each.
    Directory { disk_path: String, segments: Vec<String> },
}

/// `(is_directory, disk_path, segments)` of a target.
pub open spec fn external_target_view(t: ExternalTarget) -> (bool, Seq<char>, Seq<Seq<char>>) {
    match t {
        ExternalTarget::File { disk_path } => (false, disk_path@, Seq::empty()),
        ExternalTarget::Directory { disk_path, segments } => (
            true,
            disk_path@,
            segments@.map_values(|s: String| s@),
        ),
    }
}

/// Whether a decoded sub-path segment names exactly one entry: not `.`,
/// not `..`, and without `/` or `\`.
pub open spec fn plain_segment(seg: Seq<char>) -> bool {
    seg != "."@ && seg != ".."@ && !seg.contains('/') && !seg.contains('\\')
}

/// The decoded segments of a directory sub-path, empty ones skipped;
/// `None` when one does not decode or is not a plain segment.
pub open spec fn sub_path_segments(pieces: Seq<Seq<char>>) -> Option<Seq<Seq<char>>>
    decreases pieces.len(),
{
    if pieces.len() == 0 {
        Some(Seq::empty())
    } else {
        match sub_path_segments(pieces.drop_last()) {
            None => None,
            Some(done) => if pieces.last().len() == 0 {
                Some(done)
            } else {
                match decoded_path_segment(pieces.last()) {
                    None => None,
                    Some(seg) => if plain_segment(seg) {
                        Some(done.push(seg))
                    } else {
                        None
                    },
                }
            },
        }
    }
}

/// What an `asset`-realm path `rest` resolves to for the monitor with
/// 0-based `index`: its first segment, percent-decoded, is the id of a
/// `file` or `directory` input of the manifest; the disk path is that
/// input's non-empty string value in the monitor's configuration (never
/// taken from the URL); for a directory the remaining segments are the
/// sub-path inside it.
pub open spec fn external_target_spec(
    index: nat,
    entries: Option<Seq<(Seq<char>, WallpaperConfigSchema)>>,
    monitors: Map<Seq<char>, crate::config::MonitorConfig>,
    rest: Seq<char>,
) -> Option<(bool, Seq<char>, Seq<Seq<char>>)> {
    let pieces = split_on(rest, '/');
    if pieces[0].len() == 0 {
        None
    } else {
        match decoded_path_segment(pieces[0]) {
            None => None,
            Some(id) => match entries {
                None => None,
                Some(entries) => {
                    let kind = match schema_lookup(entries, id) {
                        Some(WallpaperConfigSchema::File { .. }) => Some(false),
                        Some(WallpaperConfigSchema::Directory { .. }) => Some(true),
                        _ => None,
                    };
                    match kind {
                        None => None,
                        Some(is_dir) => match monitor_config_for(monitors, index) {
                            None => None,
                            Some(mc) => if mc.config@.contains_key(id) && (mc.config@[id] matches Scalar::String(p)
                                && p@.len() > 0) {
                                let p = mc.config@[id]->String_0;
                                if !is_dir {
                                    Some((false, p@, Seq::empty()))
                                } else {
                                    match sub_path_segments(pieces.drop_first()) {
                                        None => None,
                                        Some(segs) => Some((true, p@, segs)),
                                    }
                                }
                            } else {
                                None
                            },
                        },
                    }
                },
            },
        }
    }
}

/// Decodes and checks the sub-path segments `pieces[from..]`.
fn sub_path(pieces: &[&str], from: usize) -> (r: Option<Vec<String>>)
    requires
        from <= pieces@.len(),
    ensures
        match r {
            Some(v) => sub_path_segments(views_of(pieces@).subrange(from as int, pieces@.len() as int))
                == Some(v@.map_values(|s: String| s@)),
            None => sub_path_segments(views_of(pieces@).subrange(from as int, pieces@.len() as int))
                is None,
        },
{
    let mut out: Vec<String> = Vec::new();
    let ghost all = views_of(pieces@);
    assert(all.subrange(from as int, from as int) =~= Seq::<Seq<char>>::empty());
    let mut i: usize = from;
    while i < pieces.len()
        invariant
            from <= i <= pieces@.len(),
            all == views_of(pieces@),
            sub_path_segments(all.subrange(from as int, i as int)) == Some(
                out@.map_values(|s: String| s@),
            ),
        decreases pieces@.len() - i,
    {
        let ghost done = out@.map_values(|s: String| s@);
        let ghost upto = all.subrange(from as int, i + 1);
        assert(upto.drop_last() =~= all.subrange(from as int, i as int));
        assert(upto.last() == pieces@[i as int]@);
        let piece = pieces[i];
        if !piece.is_empty() {
            let seg = match decode_path_segment(piece) {
                Some(s) => s,
                None => {
                    proof {
                        lemma_sub_path_none(all, from as int, i + 1);
                    }
                    return None;
                },
            };
            let dot = str_equal(seg.as_str(), ".");
            let dotdot = str_equal(seg.as_str(), "..");
            let slash = find_char(seg.as_str(), '/').is_some();
            let backslash = find_char(seg.as_str(), '\\').is_some();
            assert(slash == seg@.contains('/')) by {
                lemma_first_index_contains(seg@, '/');
            }
            assert(backslash == seg@.contains('\\')) by {
                lemma_first_index_contains(seg@, '\\');
            }
            if dot || dotdot || slash || backslash {
                proof {
                    lemma_sub_path_none(all, from as int, i + 1);
                }
                return None;
            }
            out.push(seg);
            assert(out@.map_values(|s: String| s@) =~= done.push(seg@));
        }
        i = i + 1;
    }
    Some(out)
}

/// Once a prefix of the sub-path fails, the whole sub-path fails.
proof fn lemma_sub_path_none(all: Seq<Seq<char>>, from: int, k: int)
    requires
        0 <= from <= k <= all.len(),
        sub_path_segments(all.subrange(from, k)) is None,
    ensures
        sub_path_segments(all.subrange(from, all.len() as int)) is None,
    decreases all.len() - k,
{
    if k < all.len() {
        assert(all.subrange(from, k + 1).drop_last() =~= all.subrange(from, k));
        lemma_sub_path_none(all, from, k + 1);
    }
}

/// `first_index_of` finds a character exactly when it occurs.
proof fn lemma_first_index_contains(s: Seq<char>, c: char)
    ensures
        (first_index_of(s, c) is Some) == s.contains(c),
    decreases s.len(),
{
    if s.len() > 0 {
        lemma_first_index_contains(s.drop_first(), c);
        if s.contains(c) && s[0] != c {
            let i = choose|i: int| 0 <= i < s.len() && s[i] == c;
            assert(s.drop_first()[i - 1] == c);
        }
        if s.drop_first().contains(c) {
            let i = choose|i: int| 0 <= i < s.drop_first().len() && s.drop_first()[i] == c;
            assert(s[i + 1] == c);
        }
    }
}

/// Resolves an `asset`-realm path to the configured input it names (see
/// `external_target_spec`); `manifest` is the wallpaper's manifest, when it
/// could be loaded.
pub fn resolve_external_target(
    index: usize,
    manifest: Option<&WallpaperManifest>,
    config: &Config,
    rest: &str,
) -> (r: Option<ExternalTarget>)
    requires
        index < usize::MAX,
    ensures
        match r {
            Some(t) => external_target_spec(
                index as nat,
                match manifest {
                    Some(m) => Some(schema_entries(m.config)),
                    None => None,
                },
                config.monitors@,
                rest@,
            ) == Some(external_target_view(t)),
            None => external_target_spec(
                index as nat,
                match manifest {
                    Some(m) => Some(schema_entries(m.config)),
                    None => None,
                },
                config.monitors@,
                rest@,
            ) is None,
        },
{
    let pieces = split_char(rest, '/');
    proof {
        crate::text::lemma_split_on_nonempty(rest@, '/');
    }
    let raw_id = pieces[0];
    assert(views_of(pieces@)[0] == raw_id@);
    if raw_id.is_empty() {
        return None;
    }
    let input_id = match decode_path_segment(raw_id) {
        Some(s) => s,
        None => return None,
    };
    let m = match manifest {
        Some(m) => m,
        None => return None,
    };
    let is_dir = match m.input(input_id.as_str()) {
        Some(WallpaperConfigSchema::File { .. }) => false,
        Some(WallpaperConfigSchema::Directory { .. }) => true,
        _ => return None,
    };
    let mc = match config.get_monitor_config(index) {
        Some(mc) => mc,
        None => return None,
    };
    let disk_path = match mc.config.get(input_id.as_str()) {
        Some(Scalar::String(s)) => if s.as_str().is_empty() {
            return None;
        } else {
            s.clone()
        },
        _ => return None,
    };
    if !is_dir {
        return Some(ExternalTarget::File { disk_path });
    }
    let segments = match sub_path(pieces.as_slice(), 1) {
        Some(v) => v,
        None => {
            assert(views_of(pieces@).subrange(1, pieces@.len() as int) =~= views_of(pieces@).drop_first());
            return None;
        },
    };
    assert(views_of(pieces@).subrange(1, pieces@.len() as int) =~= views_of(pieces@).drop_first());
    Some(ExternalTarget::Directory { disk_path, segments })
}

} // verus!
