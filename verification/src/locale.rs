//! Translated user-interface strings, looked up by dotted ids such as
//! `tray.quit`, in the first preferred locale that has translations.

use vstd::prelude::*;
use crate::string_map::StringMap;
use crate::text::{split_char, split_on, views_of};
use crate::wallpapers::string_views;

verus! {

/// A translation table: strings at the leaves, nested tables by key.
#[derive(Debug)]
pub enum HashMapStrings {
    String(String),
    HashMap(StringMap<HashMapStrings>),
}

/// The string at `path` below `t`: each step enters the nested table under
/// that key, and the path must end on a string.
pub open spec fn lookup_path(t: HashMapStrings, path: Seq<Seq<char>>) -> Option<Seq<char>>
    decreases path.len(),
{
    if path.len() == 0 {
        match t {
            HashMapStrings::String(s) => Some(s@),
            HashMapStrings::HashMap(_) => None,
        }
    } else {
        match t {
            HashMapStrings::HashMap(m) => if m@.contains_key(path[0]) {
                lookup_path(m@[path[0]], path.drop_first())
            } else {
                None
            },
            HashMapStrings::String(_) => None,
        }
    }
}

impl HashMapStrings {
    /// The string at the dotted `path`, e.g. `tray.quit`.
    pub fn get(&self, path: &str) -> (r: Option<&str>)
        ensures
            match r {
                Some(s) => lookup_path(*self, split_on(path@, '.')) == Some(s@),
                None => lookup_path(*self, split_on(path@, '.')) is None,
            },
    {
        let parts = split_char(path, '.');
        assert(views_of(parts@).subrange(0, parts@.len() as int) =~= views_of(parts@));
        let r = self.get_impl(parts.as_slice(), 0);
        r
    }

    fn get_impl(&self, path: &[&str], from: usize) -> (r: Option<&str>)
        requires
            from <= path@.len(),
        ensures
            match r {
                Some(s) => lookup_path(*self, views_of(path@).subrange(from as int, path@.len() as int))
                    == Some(s@),
                None => lookup_path(*self, views_of(path@).subrange(from as int, path@.len() as int))
                    is None,
            },
        decreases path@.len() - from,
    {
        let ghost rest = views_of(path@).subrange(from as int, path@.len() as int);
        if from == path.len() {
            match self {
                HashMapStrings::String(s) => Some(s.as_str()),
                HashMapStrings::HashMap(_) => None,
            }
        } else {
            assert(rest[0] == path@[from as int]@);
            assert(rest.drop_first() =~= views_of(path@).subrange(from + 1, path@.len() as int));
            match self {
                HashMapStrings::HashMap(m) => match m.get(path[from]) {
                    Some(next) => next.get_impl(path, from + 1),
                    None => None,
                },
                HashMapStrings::String(_) => None,
            }
        }
    }
}

/// The locale to use: the first preferred one that has translations, else
/// `en-US`.
pub open spec fn chosen_locale(preferred: Seq<Seq<char>>, available: Map<Seq<char>, HashMapStrings>) -> Seq<char>
    decreases preferred.len(),
{
    if preferred.len() == 0 {
        "en-US"@
    } else if available.contains_key(preferred[0]) {
        preferred[0]
    } else {
        chosen_locale(preferred.drop_first(), available)
    }
}

/// The locale chosen is the first preferred one that has translations: when
/// `preferred[i]` has some and no earlier preferred locale does, it is
/// `preferred[i]`.
pub proof fn lemma_first_available_locale_wins(
    preferred: Seq<Seq<char>>,
    available: Map<Seq<char>, HashMapStrings>,
    i: int,
)
    requires
        0 <= i < preferred.len(),
        available.contains_key(preferred[i]),
        forall|j: int| 0 <= j < i ==> !available.contains_key(#[trigger] preferred[j]),
    ensures
        chosen_locale(preferred, available) == preferred[i],
    decreases i,
{
    if i > 0 {
        assert(!available.contains_key(preferred[0]));
        let rest = preferred.drop_first();
        assert forall|j: int| 0 <= j < i - 1 implies !available.contains_key(#[trigger] rest[j]) by {
            assert(rest[j] == preferred[j + 1]);
        }
        lemma_first_available_locale_wins(rest, available, i - 1);
    }
}

/// When none of the preferred locales has translations, `en-US` is chosen.
pub proof fn lemma_no_available_locale(
    preferred: Seq<Seq<char>>,
    available: Map<Seq<char>, HashMapStrings>,
)
    requires
        forall|j: int| 0 <= j < preferred.len() ==> !available.contains_key(#[trigger] preferred[j]),
    ensures
        chosen_locale(preferred, available) == "en-US"@,
    decreases preferred.len(),
{
    if preferred.len() > 0 {
        assert(!available.contains_key(preferred[0]));
        let rest = preferred.drop_first();
        assert forall|j: int| 0 <= j < rest.len() implies !available.contains_key(#[trigger] rest[j]) by {
            assert(rest[j] == preferred[j + 1]);
        }
        lemma_no_available_locale(rest, available);
    }
}

/// The translations of all locales, with the locale in use.
pub struct Translations {
    locales: StringMap<HashMapStrings>,
    active: String,
}

impl Translations {
    /// The translation tables by locale.
    pub closed spec fn tables(self) -> Map<Seq<char>, HashMapStrings> {
        self.locales@
    }

    /// The locale in use.
    pub closed spec fn active_locale(self) -> Seq<char> {
        self.active@
    }

    /// Holds `locales` and picks the first of the user's `preferred` locales
    /// that has translations, else `en-US`.
    pub fn new(locales: StringMap<HashMapStrings>, preferred: &[String]) -> (t: Self)
        ensures
            t.tables() == locales@,
            t.active_locale() == chosen_locale(string_views(preferred@), locales@),
    {
        let ghost pv = string_views(preferred@);
        let mut i: usize = 0;
        assert(pv.subrange(0, pv.len() as int) =~= pv);
        while i < preferred.len()
            invariant
                i <= preferred@.len(),
                pv == string_views(preferred@),
                chosen_locale(pv, locales@) == chosen_locale(pv.subrange(i as int, pv.len() as int), locales@),
            decreases preferred@.len() - i,
        {
            let ghost rest = pv.subrange(i as int, pv.len() as int);
            assert(rest[0] == preferred@[i as int]@);
            assert(rest.drop_first() =~= pv.subrange(i + 1, pv.len() as int));
            if locales.contains_key(preferred[i].as_str()) {
                return Translations { locales, active: preferred[i].clone() };
            }
            i = i + 1;
        }
        assert(pv.subrange(i as int, pv.len() as int) =~= Seq::<Seq<char>>::empty());
        Translations { locales, active: "en-US".to_owned() }
    }

    /// The translation of `id` in the locale in use; `id` itself when that
    /// locale has no table or no string at `id`.
    pub fn get<'a>(&'a self, id: &'a str) -> (s: &'a str)
        ensures
            s@ == (if self.tables().contains_key(self.active_locale()) {
                match lookup_path(self.tables()[self.active_locale()], split_on(id@, '.')) {
                    Some(t) => t,
                    None => id@,
                }
            } else {
                id@
            }),
    {
        match self.locales.get(self.active.as_str()) {
            Some(locale) => match locale.get(id) {
                Some(t) => t,
                None => id,
            },
            None => id,
        }
    }
}

} // verus!
