//! Wallpaper manifests: the schema of the inputs a wallpaper exposes, the
//! defaults they declare, and which manifest file a locale prefers.

use vstd::prelude::*;
use indexmap::IndexMap;
use crate::config::{is_valid_wallpaper_id, valid_wallpaper_id, Scalar, WallpaperConfig};
use crate::string_map::{entries_map, keys_distinct, StringMap};
use crate::text::{find_char, first_index_of, push_str, str_equal};
use vstd::string::StrSliceExecFns;

verus! {

/// One configurable input of a wallpaper. Number fields hold the IEEE-754
/// bit patterns of the numbers.
#[derive(Clone, Debug)]
#[allow(inconsistent_fields)]
pub enum WallpaperConfigSchema {
    Bool { name: String, group: String, description: Option<String>, default: Option<bool> },
    String { name: String, group: String, description: Option<String>, default: Option<String> },
    Number {
        name: String,
        group: String,
        description: Option<String>,
        default: Option<u64>,
        min: Option<u64>,
        max: Option<u64>,
        step: Option<u64>,
    },
    /// A `#rrggbb` (or, with `alpha`, `#rrggbbaa`) colour string.
    Color {
        name: String,
        group: String,
        description: Option<String>,
        default: Option<String>,
        alpha: bool,
    },
    /// A file the user picks; served to the page through the `asset` realm.
    File { name: String, group: String, description: Option<String> },
    /// A folder the user picks; its contents are served through the `asset`
    /// realm.
    Directory { name: String, group: String, description: Option<String> },
}

/// `indexmap::IndexMap`, whose contents the library reads only through the
/// wrappers below.
#[verifier::external_type_specification]
#[verifier::external_body]
#[verifier::reject_recursive_types(K)]
#[verifier::reject_recursive_types(V)]
#[verifier::reject_recursive_types(S)]
pub struct ExIndexMap<K, V, S>(IndexMap<K, V, S>);

/// The entries of a manifest's input table, in order, keys taken by view.
pub uninterp spec fn schema_entries(m: IndexMap<String, WallpaperConfigSchema>) -> Seq<
    (Seq<char>, WallpaperConfigSchema),
>;

/// No two inputs share a key.
pub open spec fn schema_keys_distinct(entries: Seq<(Seq<char>, WallpaperConfigSchema)>) -> bool {
    forall|i: int, j: int| 0 <= i < j < entries.len() ==> entries[i].0 != entries[j].0
}

/// `IndexMap::len`: the number of entries. An `IndexMap` holds each key
/// once, so the `n` entries have distinct keys.
#[verifier::external_body]
fn schema_count(m: &IndexMap<String, WallpaperConfigSchema>) -> (n: usize)
    ensures
        n == schema_entries(*m).len(),
        forall|i: int, j: int|
            0 <= i < j < n ==> schema_entries(*m)[i].0 != schema_entries(*m)[j].0,
{
    m.len()
}

/// `IndexMap::get_index`: the entry at position `i`.
#[verifier::external_body]
fn schema_at(m: &IndexMap<String, WallpaperConfigSchema>, i: usize) -> (e: (
    &String,
    &WallpaperConfigSchema,
))
    requires
        i < schema_entries(*m).len(),
    ensures
        (e.0@, *e.1) == schema_entries(*m)[i as int],
{
    m.get_index(i).unwrap()
}

/// The value of the first entry keyed `key`.
pub open spec fn schema_lookup(entries: Seq<(Seq<char>, WallpaperConfigSchema)>, key: Seq<char>) -> Option<
    WallpaperConfigSchema,
>
    decreases entries.len(),
{
    if entries.len() == 0 {
        None
    } else if entries[0].0 == key {
        Some(entries[0].1)
    } else {
        schema_lookup(entries.drop_first(), key)
    }
}

/// `IndexMap::get`: the input keyed `key`. An `IndexMap` holds each key
/// once, so this is the value of the one entry with that key.
#[verifier::external_body]
fn schema_get<'a>(m: &'a IndexMap<String, WallpaperConfigSchema>, key: &str) -> (r: Option<
    &'a WallpaperConfigSchema,
>)
    ensures
        match r {
            Some(v) => schema_lookup(schema_entries(*m), key@) == Some(*v),
            None => schema_lookup(schema_entries(*m), key@) is None,
        },
{
    m.get(key)
}

/// A wallpaper's manifest: its display name and its inputs in order.
#[derive(Debug)]
pub struct WallpaperManifest {
    pub name: String,
    pub config: IndexMap<String, WallpaperConfigSchema>,
}

/// The value an input's schema declares as its default, if any.
pub open spec fn schema_default(s: WallpaperConfigSchema) -> Option<Scalar> {
    match s {
        WallpaperConfigSchema::Bool { default: Some(v), .. } => Some(Scalar::Bool(v)),
        WallpaperConfigSchema::String { default: Some(v), .. } => Some(Scalar::String(v)),
        WallpaperConfigSchema::Number { default: Some(v), .. } => Some(Scalar::Number(v)),
        WallpaperConfigSchema::Color { default: Some(v), .. } => Some(Scalar::String(v)),
        _ => None,
    }
}

/// The declared defaults of a list of inputs, later entries winning.
pub open spec fn defaults_of(entries: Seq<(Seq<char>, WallpaperConfigSchema)>) -> Map<Seq<char>, Scalar>
    decreases entries.len(),
{
    if entries.len() == 0 {
        Map::empty()
    } else {
        let m = defaults_of(entries.drop_last());
        match schema_default(entries.last().1) {
            Some(v) => m.insert(entries.last().0, v),
            None => m,
        }
    }
}

/// Looking a key up in a list with one more entry at the end finds the
/// earlier entry if there is one, else the new one if it has the key.
proof fn lemma_lookup_drop_last(e: Seq<(Seq<char>, WallpaperConfigSchema)>, k: Seq<char>)
    requires
        e.len() > 0,
    ensures
        schema_lookup(e, k) == (match schema_lookup(e.drop_last(), k) {
            Some(v) => Some(v),
            None => if e.last().0 == k {
                Some(e.last().1)
            } else {
                None
            },
        }),
    decreases e.len(),
{
    if e.len() > 1 {
        assert(e.drop_last()[0] == e[0]);
        if e[0].0 != k {
            lemma_lookup_drop_last(e.drop_first(), k);
            assert(e.drop_first().drop_last() =~= e.drop_last().drop_first());
            assert(e.drop_first().last() == e.last());
            assert(schema_lookup(e.drop_last(), k) == schema_lookup(e.drop_last().drop_first(), k));
        }
    } else {
        assert(e.drop_last().len() == 0);
        assert(e.last() == e[0]);
        assert(schema_lookup(e.drop_last(), k) is None);
        if e[0].0 != k {
            assert(schema_lookup(e.drop_first(), k) is None);
        }
    }
}

/// A key is found exactly when some entry has it.
proof fn lemma_lookup_absent(e: Seq<(Seq<char>, WallpaperConfigSchema)>, k: Seq<char>)
    ensures
        schema_lookup(e, k) is None <==> forall|i: int| 0 <= i < e.len() ==> e[i].0 != k,
    decreases e.len(),
{
    if e.len() > 0 {
        lemma_lookup_absent(e.drop_first(), k);
        if e[0].0 != k {
            assert forall|i: int| 0 <= i < e.len() && (forall|j: int| 0 <= j < e.drop_first().len() ==> e.drop_first()[j].0 != k) implies e[i].0 != k by {
                if i > 0 {
                    assert(e[i] == e.drop_first()[i - 1]);
                }
            }
        }
    }
}

/// One entry more at the end: how the defaults and the lookup of `k` change
/// when the new key is not among the earlier ones.
proof fn lemma_step(e: Seq<(Seq<char>, WallpaperConfigSchema)>, k: Seq<char>)
    requires
        e.len() > 0,
        schema_lookup(e.drop_last(), e.last().0) is None,
        forall|k: Seq<char>|
            defaults_of(e.drop_last()).contains_key(k) <==> (schema_lookup(e.drop_last(), k) matches Some(s)
                && schema_default(s) is Some),
        forall|k: Seq<char>|
            #![trigger defaults_of(e.drop_last())[k]]
            defaults_of(e.drop_last()).contains_key(k) ==> schema_default(schema_lookup(e.drop_last(), k)->0) == Some(
                defaults_of(e.drop_last())[k],
            ),
    ensures
        defaults_of(e).contains_key(k) <==> (schema_lookup(e, k) matches Some(s)
            && schema_default(s) is Some),
        defaults_of(e).contains_key(k) ==> schema_default(schema_lookup(e, k)->0) == Some(
            defaults_of(e)[k],
        ),
{
    let p = e.drop_last();
    let last = e.last();
    lemma_lookup_drop_last(e, k);
    if k == last.0 {
        assert(schema_lookup(e, k) == Some(last.1));
        assert(!defaults_of(p).contains_key(k));
    } else {
        assert(schema_lookup(e, k) == schema_lookup(p, k));
        if defaults_of(p).contains_key(k) {
            assert(defaults_of(e)[k] == defaults_of(p)[k]);
        }
    }
}

/// With distinct keys, the declared defaults hold exactly the inputs that
/// declare a default, each with that default.
proof fn lemma_defaults_exact(e: Seq<(Seq<char>, WallpaperConfigSchema)>)
    requires
        schema_keys_distinct(e),
    ensures
        forall|k: Seq<char>|
            defaults_of(e).contains_key(k) <==> (schema_lookup(e, k) matches Some(s)
                && schema_default(s) is Some),
        forall|k: Seq<char>|
            #![trigger defaults_of(e)[k]]
            defaults_of(e).contains_key(k) ==> schema_default(schema_lookup(e, k)->0) == Some(
                defaults_of(e)[k],
            ),
    decreases e.len(),
{
    if e.len() > 0 {
        let p = e.drop_last();
        assert(schema_keys_distinct(p));
        lemma_defaults_exact(p);
        let last = e.last();
        lemma_lookup_absent(p, last.0);
        assert(schema_lookup(p, last.0) is None) by {
            assert forall|i: int| 0 <= i < p.len() implies p[i].0 != last.0 by {
                assert(e[i].0 != e[e.len() - 1].0);
            }
        }
        assert forall|k: Seq<char>|
            defaults_of(e).contains_key(k) <==> (schema_lookup(e, k) matches Some(s)
                && schema_default(s) is Some) by {
            lemma_step(e, k);
        }
        assert forall|k: Seq<char>|
            #![trigger defaults_of(e)[k]]
            defaults_of(e).contains_key(k) implies schema_default(schema_lookup(e, k)->0) == Some(
                defaults_of(e)[k],
            ) by {
            lemma_step(e, k);
        }
    }
}

impl WallpaperManifest {
    /// Returns a `WallpaperConfig` populated with the manifest's declared
    /// defaults. Schema entries without a `default` are omitted.
    pub fn default_config(&self) -> (out: WallpaperConfig)
        ensures
            out@ == defaults_of(schema_entries(self.config)),
            forall|k: Seq<char>|
                out@.contains_key(k) <==> (schema_lookup(schema_entries(self.config), k) matches Some(
                    s,
                ) && schema_default(s) is Some),
            forall|k: Seq<char>|
                #![trigger out@[k]]
                out@.contains_key(k) ==> schema_default(
                    schema_lookup(schema_entries(self.config), k)->0,
                ) == Some(out@[k]),
    {
        let mut out: WallpaperConfig = StringMap::new();
        let n = schema_count(&self.config);
        let ghost entries = schema_entries(self.config);
        for i in 0..n
            invariant
                n == entries.len(),
                entries == schema_entries(self.config),
                out@ == defaults_of(entries.take(i as int)),
        {
            let (key, schema) = schema_at(&self.config, i);
            let value = match schema {
                WallpaperConfigSchema::Bool { default: Some(v), .. } => Some(Scalar::Bool(*v)),
                WallpaperConfigSchema::String { default: Some(v), .. } => Some(
                    Scalar::String(v.clone()),
                ),
                WallpaperConfigSchema::Number { default: Some(v), .. } => Some(Scalar::Number(*v)),
                WallpaperConfigSchema::Color { default: Some(v), .. } => Some(
                    Scalar::String(v.clone()),
                ),
                _ => None,
            };
            assert(value == schema_default(*schema));
            assert(entries.take(i + 1).drop_last() =~= entries.take(i as int));
            if let Some(v) = value {
                out.insert(key.clone(), v);
            }
        }
        assert(entries.take(n as int) =~= entries);
        proof {
            lemma_defaults_exact(entries);
        }
        out
    }

    /// The number of inputs; their keys are distinct.
    pub fn len_of(&self) -> (n: usize)
        ensures
            n == schema_entries(self.config).len(),
            schema_keys_distinct(schema_entries(self.config)),
    {
        schema_count(&self.config)
    }

    /// The input at position `i`, with its key.
    pub fn entry_at(&self, i: usize) -> (e: (&String, &WallpaperConfigSchema))
        requires
            i < schema_entries(self.config).len(),
        ensures
            (e.0@, *e.1) == schema_entries(self.config)[i as int],
    {
        schema_at(&self.config, i)
    }

    /// The input keyed `key`.
    pub fn input(&self, key: &str) -> (r: Option<&WallpaperConfigSchema>)
        ensures
            match r {
                Some(v) => schema_lookup(schema_entries(self.config), key@) == Some(*v),
                None => schema_lookup(schema_entries(self.config), key@) is None,
            },
    {
        schema_get(&self.config, key)
    }
}

/// The views of a sequence of strings.
pub open spec fn string_views(v: Seq<String>) -> Seq<Seq<char>> {
    v.map_values(|s: String| s@)
}

/// `index.{tag}.toml`
pub open spec fn locale_file(tag: Seq<char>) -> Seq<char> {
    "index."@ + tag + ".toml"@
}

/// The files one locale asks for: `index.{locale}.toml`, then, for a tag
/// with a region such as `zh-CN`, `index.{lang}.toml` for the part before
/// the first `-`.
pub open spec fn locale_attempts(locale: Seq<char>) -> Seq<Seq<char>> {
    match first_index_of(locale, '-') {
        Some(i) => seq![locale_file(locale), locale_file(locale.subrange(0, i))],
        None => seq![locale_file(locale)],
    }
}

/// The files all locales ask for, in order, repeats included.
pub open spec fn all_locale_attempts(locales: Seq<Seq<char>>) -> Seq<Seq<char>>
    decreases locales.len(),
{
    if locales.len() == 0 {
        Seq::empty()
    } else {
        all_locale_attempts(locales.drop_last()) + locale_attempts(locales.last())
    }
}

/// `s` with every repeat of an earlier element left out.
pub open spec fn first_occurrences(s: Seq<Seq<char>>) -> Seq<Seq<char>>
    decreases s.len(),
{
    if s.len() == 0 {
        Seq::empty()
    } else {
        let d = first_occurrences(s.drop_last());
        if d.contains(s.last()) {
            d
        } else {
            d.push(s.last())
        }
    }
}

/// The manifest files of a wallpaper directory in the order they are
/// tried: each locale's own file and then its language's file, each file
/// once, and `index.toml` last.
pub open spec fn manifest_candidates_spec(locales: Seq<Seq<char>>) -> Seq<Seq<char>> {
    first_occurrences(all_locale_attempts(locales)).push("index.toml"@)
}

/// Adds `name` unless it is already listed.
fn push_new(out: &mut Vec<String>, name: String)
    ensures
        string_views(final(out)@) == (if string_views(old(out)@).contains(name@) {
            string_views(old(out)@)
        } else {
            string_views(old(out)@).push(name@)
        }),
{
    let n = out.len();
    for i in 0..n
        invariant
            n == out@.len(),
            out@ == old(out)@,
            forall|j: int| 0 <= j < i ==> out@[j]@ != name@,
    {
        if str_equal(out[i].as_str(), name.as_str()) {
            assert(string_views(out@)[i as int] == name@);
            return;
        }
    }
    assert(!string_views(out@).contains(name@)) by {
        if string_views(out@).contains(name@) {
            let j = choose|j: int| 0 <= j < string_views(out@).len() && string_views(out@)[j] == name@;
            assert(out@[j]@ == name@);
        }
    }
    out.push(name);
    assert(string_views(out@) =~= string_views(old(out)@).push(name@));
}

fn locale_file_name(tag: &str) -> (f: String)
    ensures
        f@ == locale_file(tag@),
{
    let mut f = "index.".to_owned();
    push_str(&mut f, tag);
    push_str(&mut f, ".toml");
    f
}

proof fn lemma_first_occurrences_push(s: Seq<Seq<char>>, x: Seq<char>)
    ensures
        first_occurrences(s.push(x)) == (if first_occurrences(s).contains(x) {
            first_occurrences(s)
        } else {
            first_occurrences(s).push(x)
        }),
{
    assert(s.push(x).drop_last() =~= s);
}

/// The manifest files of a wallpaper directory in the order they are
/// tried for the user's preferred locales (see `manifest_candidates_spec`).
pub fn manifest_candidates(locales: &[String]) -> (names: Vec<String>)
    ensures
        string_views(names@) == manifest_candidates_spec(string_views(locales@)),
{
    let mut out: Vec<String> = Vec::new();
    let ghost ls = string_views(locales@);
    for i in 0..locales.len()
        invariant
            ls == string_views(locales@),
            string_views(out@) == first_occurrences(all_locale_attempts(ls.take(i as int))),
    {
        let locale = locales[i].as_str();
        let ghost before = all_locale_attempts(ls.take(i as int));
        assert(ls.take(i + 1).drop_last() =~= ls.take(i as int));
        assert(ls.take(i + 1).last() == locale@);
        let specific = locale_file_name(locale);
        proof {
            lemma_first_occurrences_push(before, specific@);
        }
        push_new(&mut out, specific);
        match find_char(locale, '-') {
            Some(k) => {
                let lang = locale_file_name(locale.substring_char(0, k));
                proof {
                    lemma_first_occurrences_push(before.push(locale_file(locale@)), lang@);
                    assert(before + locale_attempts(locale@) =~= before.push(locale_file(locale@)).push(
                        lang@,
                    ));
                }
                push_new(&mut out, lang);
            },
            None => {
                assert(before + locale_attempts(locale@) =~= before.push(locale_file(locale@)));
            },
        }
    }
    assert(ls.take(locales.len() as int) =~= ls);
    let ghost before = string_views(out@);
    out.push("index.toml".to_owned());
    assert(string_views(out@) =~= before.push("index.toml"@));
    out
}

/// `first_occurrences` keeps each element once, and keeps only elements of
/// its argument.
proof fn lemma_first_occurrences(s: Seq<Seq<char>>)
    ensures
        forall|i: int, j: int|
            0 <= i < j < first_occurrences(s).len() ==> first_occurrences(s)[i] != first_occurrences(
                s,
            )[j],
        forall|x: Seq<char>| first_occurrences(s).contains(x) ==> s.contains(x),
    decreases s.len(),
{
    if s.len() > 0 {
        let p = s.drop_last();
        lemma_first_occurrences(p);
        let d = first_occurrences(p);
        assert forall|x: Seq<char>| first_occurrences(s).contains(x) implies s.contains(x) by {
            if d.contains(x) {
                assert(p.contains(x));
                let i = choose|i: int| 0 <= i < p.len() && p[i] == x;
                assert(p[i] == s[i]);
                assert(s[i] == x);
            } else {
                assert(x == s.last());
                assert(s[s.len() - 1] == x);
            }
        }
        if !d.contains(s.last()) {
            assert forall|i: int, j: int|
                0 <= i < j < first_occurrences(s).len() implies first_occurrences(s)[i]
                != first_occurrences(s)[j] by {
                if j == d.len() {
                    assert(d[i] == first_occurrences(s)[i]);
                }
            }
        }
    }
}

/// Every file a locale asks for is longer than `index.toml`.
proof fn lemma_attempts_long(locales: Seq<Seq<char>>)
    ensures
        forall|x: Seq<char>| all_locale_attempts(locales).contains(x) ==> x.len() > 10,
    decreases locales.len(),
{
    reveal_strlit("index.");
    reveal_strlit(".toml");
    if locales.len() > 0 {
        lemma_attempts_long(locales.drop_last());
        let a = all_locale_attempts(locales.drop_last());
        let b = locale_attempts(locales.last());
        assert forall|k: int| 0 <= k < b.len() implies b[k].len() > 10 by {
            assert("index."@.len() == 6);
            assert(".toml"@.len() == 5);
        }
        assert(all_locale_attempts(locales) == a + b);
        assert forall|x: Seq<char>| (a + b).contains(x) implies x.len() > 10 by {
            let i = choose|i: int| 0 <= i < (a + b).len() && (a + b)[i] == x;
            if i < a.len() {
                assert(a[i] == x);
                assert(a.contains(x));
            } else {
                assert(b[i - a.len()] == x);
            }
        }
    }
}

/// A wallpaper directory's manifest files are each tried once: no name
/// appears twice among the candidates, and `index.toml` comes last.
pub proof fn lemma_manifest_candidates_distinct(locales: Seq<Seq<char>>)
    ensures
        forall|i: int, j: int|
            0 <= i < j < manifest_candidates_spec(locales).len() ==> manifest_candidates_spec(
                locales,
            )[i] != manifest_candidates_spec(locales)[j],
        manifest_candidates_spec(locales).last() == "index.toml"@,
{
    let f = first_occurrences(all_locale_attempts(locales));
    lemma_first_occurrences(all_locale_attempts(locales));
    lemma_attempts_long(locales);
    reveal_strlit("index.toml");
    assert forall|i: int, j: int|
        0 <= i < j < f.push("index.toml"@).len() implies f.push("index.toml"@)[i] != f.push(
        "index.toml"@,
    )[j] by {
        if j == f.len() {
            assert(f.contains(f[i]));
            assert(all_locale_attempts(locales).contains(f[i]));
            assert(f[i].len() > 10);
            assert("index.toml"@.len() == 10);
        } else {
            assert(f[i] != f[j]);
        }
    }
}

/// Whether a directory entry met while scanning the wallpaper directories
/// is worth loading: a directory whose name is a valid wallpaper id that no
/// earlier directory supplied.
pub open spec fn catalog_wants(
    found: Map<Seq<char>, WallpaperManifest>,
    name: Seq<char>,
    is_dir: bool,
) -> bool {
    is_dir && valid_wallpaper_id(name) && !found.contains_key(name)
}

/// The catalog after a manifest was loaded for `name`: it is kept only if
/// `name` is a valid id that is not in the catalog yet.
pub open spec fn catalog_offered(
    found: Map<Seq<char>, WallpaperManifest>,
    name: Seq<char>,
    manifest: WallpaperManifest,
) -> Map<Seq<char>, WallpaperManifest> {
    if valid_wallpaper_id(name) && !found.contains_key(name) {
        found.insert(name, manifest)
    } else {
        found
    }
}

/// The wallpapers found while the wallpaper directories are scanned in
/// order: each valid directory name with the first manifest that loaded for
/// it.
pub struct WallpaperCatalog {
    found: StringMap<WallpaperManifest>,
}

impl View for WallpaperCatalog {
    type V = Map<Seq<char>, WallpaperManifest>;

    closed spec fn view(&self) -> Map<Seq<char>, WallpaperManifest> {
        self.found@
    }
}

impl WallpaperCatalog {
    /// A catalog with nothing found yet.
    pub fn new() -> (c: Self)
        ensures
            c@ == Map::<Seq<char>, WallpaperManifest>::empty(),
    {
        WallpaperCatalog { found: StringMap::new() }
    }

    /// Whether the entry `name` (a directory when `is_dir`) should have its
    /// manifest loaded (see `catalog_wants`).
    pub fn wants(&self, name: &str, is_dir: bool) -> (b: bool)
        ensures
            b == catalog_wants(self@, name@, is_dir),
    {
        is_dir && is_valid_wallpaper_id(name) && !self.found.contains_key(name)
    }

    /// Records the manifest loaded for `name` (see `catalog_offered`).
    pub fn offer(&mut self, name: String, manifest: WallpaperManifest)
        ensures
            final(self)@ == catalog_offered(old(self)@, name@, manifest),
    {
        if is_valid_wallpaper_id(name.as_str()) {
            self.found.insert_if_absent(name, manifest);
        }
    }

    /// The wallpapers found, each name once.
    pub fn into_entries(self) -> (e: Vec<(String, WallpaperManifest)>)
        ensures
            keys_distinct(e@),
            entries_map(e@) == self@,
    {
        self.found.into_entries()
    }
}

/// A wallpaper found in an earlier directory keeps its manifest whatever a
/// later directory offers.
pub proof fn lemma_first_found_wins(
    found: Map<Seq<char>, WallpaperManifest>,
    name: Seq<char>,
    later: Seq<char>,
    manifest: WallpaperManifest,
)
    requires
        found.contains_key(name),
    ensures
        catalog_offered(found, later, manifest).contains_key(name),
        catalog_offered(found, later, manifest)[name] == found[name],
{
}

/// Every name that enters the catalog is a valid wallpaper id, so a catalog
/// built from empty by offers holds valid ids only.
pub proof fn lemma_catalog_ids_valid(
    found: Map<Seq<char>, WallpaperManifest>,
    name: Seq<char>,
    manifest: WallpaperManifest,
)
    requires
        forall|k: Seq<char>| found.contains_key(k) ==> valid_wallpaper_id(k),
    ensures
        forall|k: Seq<char>|
            catalog_offered(found, name, manifest).contains_key(k) ==> valid_wallpaper_id(k),
{
}

} // verus!
