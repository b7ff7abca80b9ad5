//! Languages of the user interface and the translation table.

use vstd::prelude::*;
use vstd::hash_map::StringHashMap;
use crate::text::str_eq;

verus! {

broadcast use vstd::string::group_string_axioms;

/// Supported languages.
#[derive(Debug, Clone, Copy, PartialEq, Eq, Structural)]
pub enum Language {
    German,
    English,
}

impl Default for Language {
    /// German.
    fn default() -> (r: Language)
        ensures
            r == Language::German,
    {
        Language::German
    }
}

/// The name under which a language is stored in the settings file.
pub open spec fn language_name(l: Language) -> Seq<char> {
    match l {
        Language::German => "german"@,
        Language::English => "english"@,
    }
}

/// The language that the name `s` selects, if any: "english" or "English"
/// select English; "german", "German" or "Deutsch" select German.
pub open spec fn language_named(s: Seq<char>) -> Option<Language> {
    if s == "english"@ || s == "English"@ {
        Some(Language::English)
    } else if s == "german"@ || s == "German"@ || s == "Deutsch"@ {
        Some(Language::German)
    } else {
        None
    }
}

/// The translation file of a language.
pub open spec fn language_file(l: Language) -> Seq<char> {
    match l {
        Language::German => "german.json"@,
        Language::English => "english.json"@,
    }
}

/// A language read back from the name it is stored under is the language
/// itself.
pub proof fn lemma_language_name_roundtrip(l: Language)
    ensures
        language_named(language_name(l)) == Some(l),
{
    reveal_strlit("english");
    reveal_strlit("English");
    reveal_strlit("german");
    reveal_strlit("German");
    reveal_strlit("Deutsch");
    assert("english"@[0] != "English"@[0]);
    assert("german"@.len() != "english"@.len());
    assert("german"@.len() != "English"@.len());
}

impl Language {
    /// The name of the language, as stored in the settings file.
    pub fn to_str(&self) -> (r: &'static str)
        ensures
            r@ == language_name(*self),
    {
        match self {
            Language::German => "german",
            Language::English => "english",
        }
    }

    /// The language named `s`; an unknown name gives the default, German.
    pub fn from_str(s: &str) -> (r: Language)
        ensures
            r == match language_named(s@) {
                Some(l) => l,
                None => Language::German,
            },
    {
        if str_eq(s, "english") || str_eq(s, "English") {
            Language::English
        } else if str_eq(s, "german") || str_eq(s, "German") || str_eq(s, "Deutsch") {
            Language::German
        } else {
            Language::default()
        }
    }

    /// The name of the language's translation file.
    pub fn filename(&self) -> (r: &'static str)
        ensures
            r@ == language_file(*self),
    {
        match self {
            Language::German => "german.json",
            Language::English => "english.json",
        }
    }
}

/// The map that a list of key/value pairs builds when inserted in order:
/// a later pair for a key replaces an earlier one.
pub open spec fn pairs_map(pairs: Seq<(Seq<char>, Seq<char>)>) -> Map<Seq<char>, Seq<char>>
    decreases pairs.len(),
{
    if pairs.len() == 0 {
        Map::empty()
    } else {
        pairs_map(pairs.drop_last()).insert(pairs.last().0, pairs.last().1)
    }
}

/// The views of a list of string pairs.
pub open spec fn pairs_view(pairs: Seq<(String, String)>) -> Seq<(Seq<char>, Seq<char>)> {
    pairs.map_values(|p: (String, String)| (p.0@, p.1@))
}

/// The string-to-string map that `serde_json` reads from the JSON text
/// `text`, or `None` where the text is not a JSON object of strings.
pub uninterp spec fn json_string_map(text: Seq<char>) -> Option<Map<Seq<char>, Seq<char>>>;

#[verifier::external_type_specification]
#[verifier::external_body]
pub struct ExJsonError(serde_json::Error);

/// Parses `text` with `serde_json::from_str` into a
/// `BTreeMap<String, String>` and lists its entries. The contract claims
/// that parsing succeeds exactly where `json_string_map` of the text is
/// defined, and that the listed entries build that map.
#[verifier::external_body]
fn parse_string_map(text: &str) -> (r: Result<Vec<(String, String)>, serde_json::Error>)
    ensures
        r is Ok <==> json_string_map(text@) is Some,
        r matches Ok(v) ==> pairs_map(pairs_view(v@)) == json_string_map(text@)->0,
{
    serde_json::from_str::<std::collections::BTreeMap<String, String>>(text).map(|m| m.into_iter().collect())
}

/// The translation table of the user interface.
pub struct Translations {
    translations: StringHashMap<String>,
}

impl View for Translations {
    type V = Map<Seq<char>, Seq<char>>;

    closed spec fn view(&self) -> Map<Seq<char>, Seq<char>> {
        self.translations@.map_values(|v: String| v@)
    }
}

/// The table that the contents of a translation file give: the file's
/// key/value map, or an empty table where there is no file or it does not
/// parse.
pub open spec fn loaded_table(content: Option<Seq<char>>) -> Map<Seq<char>, Seq<char>> {
    match content {
        Some(c) => match json_string_map(c) {
            Some(m) => m,
            None => Map::empty(),
        },
        None => Map::empty(),
    }
}

impl Translations {
    /// An empty table.
    pub fn empty() -> (t: Translations)
        ensures
            t@ == Map::<Seq<char>, Seq<char>>::empty(),
    {
        let t = Translations { translations: StringHashMap::new() };
        assert(t@ =~= Map::<Seq<char>, Seq<char>>::empty());
        t
    }

    /// The table built from parsed entries (`None`: nothing could be
    /// parsed, which gives an empty table).
    pub fn from_entries(entries: Option<Vec<(String, String)>>) -> (t: Translations)
        ensures
            t@ == match entries {
                Some(v) => pairs_map(pairs_view(v@)),
                None => Map::<Seq<char>, Seq<char>>::empty(),
            },
    {
        match entries {
            None => Translations::empty(),
            Some(v) => {
                let mut m: StringHashMap<String> = StringHashMap::new();
                let ghost all = pairs_view(v@);
                let mut k: usize = 0;
                while k < v.len()
                    invariant
                        all == pairs_view(v@),
                        k <= v@.len(),
                        m@.map_values(|s: String| s@) == pairs_map(all.take(k as int)),
                    decreases v@.len() - k,
                {
                    let key = v[k].0.clone();
                    let value = v[k].1.clone();
                    let ghost kv = (key@, value@);
                    assert(kv == all[k as int]);
                    let ghost before = m@;
                    m.insert(key, value);
                    assert(all.take(k + 1).drop_last() =~= all.take(k as int));
                    assert(m@.map_values(|s: String| s@) =~= before.map_values(|s: String| s@).insert(
                        kv.0,
                        kv.1,
                    ));
                    k = k + 1;
                }
                assert(all.take(v@.len() as int) =~= all);
                Translations { translations: m }
            },
        }
    }

    /// The entries of a translation file's contents; `None`
    /// where the contents do not parse. They build the file's map.
    pub fn parse_entries(content: &str) -> (r: Option<Vec<(String, String)>>)
        ensures
            r is Some <==> json_string_map(content@) is Some,
            r matches Some(v) ==> pairs_map(pairs_view(v@)) == json_string_map(content@)->0,
    {
        match parse_string_map(content) {
            Ok(v) => Some(v),
            Err(_) => None,
        }
    }

    /// The table that the contents of a translation file give (`None`: the
    /// file could not be read). A file that does not parse gives an empty
    /// table.
    pub fn load(content: Option<&str>) -> (t: Translations)
        ensures
            t@ == loaded_table(
                match content {
                    Some(c) => Some(c@),
                    None => None,
                },
            ),
    {
        match content {
            None => Translations::empty(),
            Some(c) => Translations::from_entries(Translations::parse_entries(c)),
        }
    }

    /// The translation of `key`, or the empty string where there is none.
    pub fn get<'a>(&'a self, key: &str) -> (r: &'a str)
        ensures
            r@ == if self@.contains_key(key@) {
                self@[key@]
            } else {
                ""@
            },
    {
        match self.translations.get(key) {
            Some(s) => s.as_str(),
            None => {
                proof {
                    reveal_strlit("");
                }
                ""
            },
        }
    }
}

} // verus!
