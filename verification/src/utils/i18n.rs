//! User-facing texts in several languages.

use vstd::prelude::*;

verus! {

/// A language of the user interface.
#[derive(Debug, Clone, Copy, PartialEq, Eq, Structural)]
pub enum Language {
    English,
    Chinese,
    Japanese,
}

impl Language {
    /// The code under which the texts of the language are filed, as a
    /// sequence of characters.
    pub open spec fn code_text(self) -> Seq<char> {
        match self {
            Language::English => "en"@,
            Language::Chinese => "zh"@,
            Language::Japanese => "jp"@,
        }
    }

    /// The code under which the texts of the language are filed.
    pub fn code(&self) -> (r: &'static str)
        ensures
            r@ == self.code_text(),
    {
        match self {
            Language::English => "en",
            Language::Chinese => "zh",
            Language::Japanese => "jp",
        }
    }
}

/// The text filed under `key` in a list of keys with their texts: that of
/// the first entry with this key.
pub open spec fn listed(entries: Seq<(Seq<char>, Seq<char>)>, key: Seq<char>) -> Option<Seq<char>>
    decreases entries.len(),
{
    if entries.len() == 0 {
        None
    } else if entries[0].0 == key {
        Some(entries[0].1)
    } else {
        listed(entries.drop_first(), key)
    }
}

/// The texts of one language, each filed under a key.
#[derive(Debug)]
pub struct LocaleText {
    ui: Vec<(String, String)>,
}

impl LocaleText {
    /// The keys with their texts, in the order in which they were filed.
    pub closed spec fn entries(&self) -> Seq<(Seq<char>, Seq<char>)> {
        self.ui@.map_values(|e: (String, String)| (e.0@, e.1@))
    }

    /// The text filed under `key`.
    pub open spec fn text_of(&self, key: Seq<char>) -> Option<Seq<char>> {
        listed(self.entries(), key)
    }

    /// A locale without texts.
    pub fn new() -> (r: LocaleText)
        ensures
            r.entries() == Seq::<(Seq<char>, Seq<char>)>::empty(),
    {
        let r = LocaleText { ui: Vec::new() };
        assert(r.entries() =~= Seq::<(Seq<char>, Seq<char>)>::empty());
        r
    }

    /// Files `text` under `key`, behind the texts filed before. A key that
    /// is filed already keeps its first text.
    pub fn insert(&mut self, key: String, text: String)
        ensures
            final(self).entries() == old(self).entries().push((key@, text@)),
    {
        let ghost before = self.entries();
        self.ui.push((key, text));
        assert(self.entries() =~= before.push((key@, text@)));
    }

    /// The text filed under `key`.
    pub fn get(&self, key: &str) -> (r: Option<&str>)
        ensures
            match r {
                Some(text) => self.text_of(key@) == Some(text@),
                None => self.text_of(key@) is None,
            },
    {
        let wanted = key.to_owned();
        let ghost all = self.entries();
        let mut i: usize = 0;
        assert(all.skip(0) =~= all);
        while i < self.ui.len()
            invariant
                i <= self.ui@.len(),
                all == self.entries(),
                wanted@ == key@,
                listed(all, key@) == listed(all.skip(i as int), key@),
            decreases self.ui@.len() - i,
        {
            proof {
                let rest = all.skip(i as int);
                assert(rest[0] == all[i as int]);
                assert(rest.drop_first() =~= all.skip(i + 1));
            }
            if self.ui[i].0 == wanted {
                return Some(self.ui[i].1.as_str());
            }
            i += 1;
        }
        None
    }
}

/// Something that can put a text key into the user's language.
pub trait Translate {
    /// The text for `key` in the user's language.
    fn t(&self, key: &str) -> String;
}

/// The texts filed under `code` in a list of codes with their texts: those
/// of the first entry with this code.
pub open spec fn filed(
    tables: Seq<(Seq<char>, Seq<(Seq<char>, Seq<char>)>)>,
    code: Seq<char>,
) -> Option<Seq<(Seq<char>, Seq<char>)>>
    decreases tables.len(),
{
    if tables.len() == 0 {
        None
    } else if tables[0].0 == code {
        Some(tables[0].1)
    } else {
        filed(tables.drop_first(), code)
    }
}

/// The text shown for `key` in the language filed under `code`: the filed
/// text, or the key itself where none is filed.
pub open spec fn shown(
    tables: Seq<(Seq<char>, Seq<(Seq<char>, Seq<char>)>)>,
    code: Seq<char>,
    key: Seq<char>,
) -> Seq<char> {
    match filed(tables, code) {
        Some(entries) => match listed(entries, key) {
            Some(text) => text,
            None => key,
        },
        None => key,
    }
}

/// The texts of the languages, each set filed under the code of its
/// language.
#[derive(Debug)]
pub struct Locales {
    tables: Vec<(String, LocaleText)>,
}

impl Locales {
    /// The codes with their sets of texts, in the order in which they were
    /// filed.
    pub closed spec fn tables(&self) -> Seq<(Seq<char>, Seq<(Seq<char>, Seq<char>)>)> {
        self.tables@.map_values(|e: (String, LocaleText)| (e.0@, e.1.entries()))
    }

    /// No texts in any language.
    pub fn new() -> (r: Locales)
        ensures
            r.tables() == Seq::<(Seq<char>, Seq<(Seq<char>, Seq<char>)>)>::empty(),
    {
        let r = Locales { tables: Vec::new() };
        assert(r.tables() =~= Seq::<(Seq<char>, Seq<(Seq<char>, Seq<char>)>)>::empty());
        r
    }

    /// Files the texts of a language under `code`, behind the sets filed
    /// before. A code that is filed already keeps its first set.
    pub fn insert(&mut self, code: String, table: LocaleText)
        ensures
            final(self).tables() == old(self).tables().push((code@, table.entries())),
    {
        let ghost before = self.tables();
        self.tables.push((code, table));
        assert(self.tables() =~= before.push((code@, table.entries())));
    }

    /// The text shown for `key` in `lang`: the filed text, or the key
    /// itself where none is filed.
    pub fn translate(&self, key: &str, lang: Language) -> (r: String)
        ensures
            r@ == shown(self.tables(), lang.code_text(), key@),
    {
        let code = lang.code().to_owned();
        let ghost all = self.tables();
        let mut i: usize = 0;
        assert(all.skip(0) =~= all);
        while i < self.tables.len()
            invariant
                i <= self.tables@.len(),
                all == self.tables(),
                code@ == lang.code_text(),
                filed(all, code@) == filed(all.skip(i as int), code@),
            decreases self.tables@.len() - i,
        {
            proof {
                let rest = all.skip(i as int);
                assert(rest[0] == all[i as int]);
                assert(rest.drop_first() =~= all.skip(i + 1));
            }
            if self.tables[i].0 == code {
                return match self.tables[i].1.get(key) {
                    Some(text) => text.to_owned(),
                    None => key.to_owned(),
                };
            }
            i += 1;
        }
        key.to_owned()
    }
}

} // verus!
