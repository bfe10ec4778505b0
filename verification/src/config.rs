//! The user configuration: wallpaper directories and per-monitor wallpaper
//! choices, plus the rules for wallpaper ids.

use vstd::prelude::*;
use vstd::utf8::{encode_utf8, is_ascii_chars, is_ascii_chars_encode_utf8};
use crate::string_map::StringMap;
use crate::text::{chars_of, decimal, strip_prefix, usize_to_decimal};

verus! {

/// A configuration value. `Number` holds the IEEE-754 bit pattern of the
/// number, which this library only carries and never computes with.
#[derive(Debug)]
pub enum Scalar {
    String(String),
    Number(u64),
    Bool(bool),
}

impl Clone for Scalar {
    fn clone(&self) -> (c: Self)
        ensures
            c == *self,
    {
        match self {
            Scalar::String(s) => Scalar::String(s.clone()),
            Scalar::Number(n) => Scalar::Number(*n),
            Scalar::Bool(b) => Scalar::Bool(*b),
        }
    }
}

/// The per-wallpaper configuration: input name to value.
pub type WallpaperConfig = StringMap<Scalar>;

/// What one monitor shows and how the wallpaper is configured there.
#[derive(Clone, Debug)]
pub struct MonitorConfig {
    pub wallpaper: String,
    pub config: WallpaperConfig,
}

/// The whole configuration file.
#[derive(Clone, Debug)]
pub struct Config {
    pub wallpapers_directories: Vec<String>,
    pub monitors: StringMap<MonitorConfig>,
}

impl Default for Config {
    fn default() -> (c: Self)
        ensures
            c.wallpapers_directories@.len() == 0,
            c.monitors@ == Map::<Seq<char>, MonitorConfig>::empty(),
    {
        Config { wallpapers_directories: Vec::new(), monitors: StringMap::new() }
    }
}

/// The key of the fallback monitor entry, `default`.
pub open spec fn default_monitor_key() -> Seq<char> {
    seq!['d', 'e', 'f', 'a', 'u', 'l', 't']
}

/// The key of the monitor with 0-based `index`: its 1-based number.
pub open spec fn monitor_key(index: nat) -> Seq<char> {
    decimal(index + 1)
}

/// The configuration that applies to the monitor with 0-based `index`: its
/// own entry, else the `default` entry.
pub open spec fn monitor_config_for(monitors: Map<Seq<char>, MonitorConfig>, index: nat) -> Option<
    MonitorConfig,
> {
    if monitors.contains_key(monitor_key(index)) {
        Some(monitors[monitor_key(index)])
    } else if monitors.contains_key(default_monitor_key()) {
        Some(monitors[default_monitor_key()])
    } else {
        None
    }
}

impl Config {
    /// The configuration of the monitor with 0-based `index`: the entry keyed
    /// by its 1-based number, else the `default` entry.
    pub fn get_monitor_config(&self, index: usize) -> (r: Option<&MonitorConfig>)
        requires
            index < usize::MAX,
        ensures
            match r {
                Some(m) => monitor_config_for(self.monitors@, index as nat) == Some(*m),
                None => monitor_config_for(self.monitors@, index as nat) is None,
            },
    {
        let key = usize_to_decimal(index + 1);
        match self.monitors.get(key.as_str()) {
            Some(m) => Some(m),
            None => {
                proof {
                    reveal_strlit("default");
                    assert("default"@ =~= default_monitor_key());
                }
                self.monitors.get("default")
            },
        }
    }
}

/// Whether `c` may appear in a wallpaper id.
pub open spec fn is_id_char(c: char) -> bool {
    ('a' <= c && c <= 'z') || ('0' <= c && c <= '9') || c == '-'
}

/// A wallpaper id is a valid hostname label: one to 63 bytes of lowercase
/// ASCII letters, digits and hyphens, not starting or ending with a hyphen.
pub open spec fn valid_wallpaper_id(s: Seq<char>) -> bool {
    &&& s.len() > 0
    &&& encode_utf8(s).len() < 64
    &&& s[0] != '-'
    &&& s.last() != '-'
    &&& forall|i: int| 0 <= i < s.len() ==> is_id_char(#[trigger] s[i])
}

/// The wallpaper-id rule in full: a string is a valid id exactly when it
/// has one to 63 characters, each a lowercase ASCII letter, an ASCII digit
/// or `-`, and neither its first nor its last character is `-`. A digit may
/// come first.
pub proof fn lemma_wallpaper_id_rule(s: Seq<char>)
    ensures
        valid_wallpaper_id(s) <==> {
            &&& 0 < s.len() < 64
            &&& forall|i: int|
                0 <= i < s.len() ==> ('a' <= #[trigger] s[i] <= 'z') || ('0' <= s[i] <= '9') || s[i]
                    == '-'
            &&& s[0] != '-'
            &&& s[s.len() - 1] != '-'
        },
{
    if forall|i: int| 0 <= i < s.len() ==> is_id_char(#[trigger] s[i]) {
        assert(is_ascii_chars(s)) by {
            assert forall|i: int| 0 <= i < s.len() implies '\0' <= #[trigger] s[i] <= '\u{7f}' by {
                assert(is_id_char(s[i]));
            }
        }
        is_ascii_chars_encode_utf8(s);
    }
}

/// Whether `name` is usable as a wallpaper id. Wallpaper ids end up in URLs
/// (the custom protocol host is `monitor-{n}.{wallpaper}`), so they must be
/// valid hostnames: lowercase letters, digits, and hyphens, with no leading
/// or trailing hyphen and at least one character.
pub fn is_valid_wallpaper_id(name: &str) -> (ok: bool)
    ensures
        ok == valid_wallpaper_id(name@),
{
    if name.is_empty() || name.as_bytes().len() >= 64 {
        return false;
    }
    assert(encode_utf8(name@).len() < 64);
    let cs = chars_of(name);
    if cs[0] == '-' || cs[cs.len() - 1] == '-' {
        return false;
    }
    for i in 0..cs.len()
        invariant
            cs@ == name@,
            forall|j: int| 0 <= j < i ==> is_id_char(#[trigger] name@[j]),
    {
        let c = cs[i];
        if !(('a' <= c && c <= 'z') || ('0' <= c && c <= '9') || c == '-') {
            assert(!is_id_char(name@[i as int]));
            return false;
        }
    }
    assert(name@[0] != '-');
    assert(name@.last() != '-');
    true
}

/// The part of a configured directory after a leading `~/`, which is to be
/// resolved against the user's home directory; `None` when `raw` does not
/// start with `~/` and is used as it stands.
pub fn home_relative_part(raw: &str) -> (rest: Option<&str>)
    ensures
        rest is Some <==> (raw@.len() >= 2 && raw@[0] == '~' && raw@[1] == '/'),
        rest matches Some(r) ==> r@ == raw@.subrange(2, raw@.len() as int),
{
    proof {
        reveal_strlit("~/");
        assert("~/"@ =~= seq!['~', '/']);
        if raw@.len() >= 2 && raw@[0] == '~' && raw@[1] == '/' {
            assert(raw@.subrange(0, 2) =~= seq!['~', '/']);
        }
    }
    strip_prefix(raw, "~/")
}

} // verus!
