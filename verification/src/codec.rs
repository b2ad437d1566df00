//! Persistence format of the three on-disk records.
//!
//! Every record is a TOML document with a single top-level key: the
//! application config holds a path string, the identity table a table of
//! path-to-id strings, the per-environment state a list of trick names.
//! Documents are modelled as [`TomlDoc`] values; the TOML text itself is
//! produced and parsed by the `toml` crate behind two trusted wrappers.
use vstd::prelude::*;
use vstd::string::*;

use crate::strutil::{str_eq, clone_string_vec, clone_pair_vec};
use toml::map::Map as TomlMap;
use toml::Value;

verus! {

/// A value a record may hold: a string, a list of strings, or a table of
/// string pairs.
pub enum TomlItem {
    Str(String),
    StrList(Vec<String>),
    StrTable(Vec<(String, String)>),
}

/// The mathematical form of a [`TomlItem`].
pub enum ItemV {
    Str(Seq<char>),
    StrList(Seq<Seq<char>>),
    StrTable(Seq<(Seq<char>, Seq<char>)>),
}

impl DeepView for TomlItem {
    type V = ItemV;

    open spec fn deep_view(&self) -> ItemV {
        match self {
            TomlItem::Str(s) => ItemV::Str(s@),
            TomlItem::StrList(v) => ItemV::StrList(v.deep_view()),
            TomlItem::StrTable(v) => ItemV::StrTable(v.deep_view()),
        }
    }
}

/// A record document: top-level keys with their items, in order.
pub struct TomlDoc {
    pub entries: Vec<(String, TomlItem)>,
}

impl DeepView for TomlDoc {
    type V = Seq<(Seq<char>, ItemV)>;

    open spec fn deep_view(&self) -> Seq<(Seq<char>, ItemV)> {
        self.entries.deep_view()
    }
}

/// No key occurs twice.
pub open spec fn unique_keys(es: Seq<(Seq<char>, Seq<char>)>) -> bool {
    forall|i: int, j: int| 0 <= i < j < es.len() ==> (#[trigger] es[i]).0 != (#[trigger] es[j]).0
}

/// Documents whose encoding the parser is trusted to invert: a single
/// top-level key, and no repeated key inside a table item.
pub open spec fn wf_docv(d: Seq<(Seq<char>, ItemV)>) -> bool {
    d.len() == 1 && match d[0].1 {
        ItemV::Str(_) => true,
        ItemV::StrList(_) => true,
        ItemV::StrTable(es) => unique_keys(es),
    }
}

/// The TOML text the `toml` crate writes for a document.
pub uninterp spec fn toml_of_docv(d: Seq<(Seq<char>, ItemV)>) -> Seq<char>;

/// The document the `toml` crate reads out of a text, if the text is valid
/// TOML holding only strings, string lists and string tables.
pub uninterp spec fn docv_of_toml(s: Seq<char>) -> Option<Seq<(Seq<char>, ItemV)>>;

/// Relies on toml::to_string_pretty: serialising a table built in entry
/// order (insertion order is kept under the `preserve_order` feature)
/// writes a deterministic text for a given document; on documents made of
/// strings, string lists and string tables none of its error cases
/// (unsupported value types, non-string keys) can arise, so a text is
/// always returned.
#[verifier::external_body]
fn encode_doc_raw(d: &TomlDoc) -> (r: Option<String>)
    ensures
        r is Some,
        r matches Some(s) ==> s@ == toml_of_docv(d.deep_view()),
{
    let mut t = TomlMap::new();
    for (k, item) in d.entries.iter() {
        t.insert(k.clone(), match item {
            TomlItem::Str(s) => Value::String(s.clone()),
            TomlItem::StrList(xs) => Value::Array(xs.iter().map(|x| Value::String(x.clone())).collect()),
            TomlItem::StrTable(ps) => Value::Table(ps.iter().map(|(a, b)| (a.clone(), Value::String(b.clone()))).collect()),
        });
    }
    toml::to_string_pretty(&t).ok()
}

/// Relies on toml::from_str for `toml::Table`: parsing is a deterministic
/// function of the text, keeps the document's key order under the
/// `preserve_order` feature, parses the empty text to the empty document,
/// and inverts toml::to_string_pretty on the single-key documents this
/// crate writes.
#[verifier::external_body]
fn parse_doc_raw(s: &str) -> (r: Option<TomlDoc>)
    ensures
        r.deep_view() == docv_of_toml(s@),
        s@.len() == 0 ==> r.deep_view() == Some(Seq::<(Seq<char>, ItemV)>::empty()),
        forall|d: Seq<(Seq<char>, ItemV)>|
            wf_docv(d) && s@ == toml_of_docv(d) ==> r.deep_view() == Some(d),
{
    let t: TomlMap<String, Value> = toml::from_str(s).ok()?;
    let mut entries = Vec::new();
    for (k, v) in t {
        entries.push((k, match v {
            Value::String(x) => TomlItem::Str(x),
            Value::Array(xs) => TomlItem::StrList(xs.into_iter().map(|x| Some(x.as_str()?.to_owned())).collect::<Option<_>>()?),
            Value::Table(m) => TomlItem::StrTable(m.into_iter().map(|(a, b)| Some((a, b.as_str()?.to_owned()))).collect::<Option<_>>()?),
            _ => return None,
        }));
    }
    Some(TomlDoc { entries })
}

/// The first item stored under `key`, if any.
pub open spec fn find_key(d: Seq<(Seq<char>, ItemV)>, key: Seq<char>) -> Option<ItemV>
    decreases d.len(),
{
    if d.len() == 0 {
        None
    } else if d[0].0 == key {
        Some(d[0].1)
    } else {
        find_key(d.drop_first(), key)
    }
}

proof fn lemma_find_key_skip(d: Seq<(Seq<char>, ItemV)>, key: Seq<char>, i: int)
    requires
        0 <= i <= d.len(),
        forall|j: int| 0 <= j < i ==> (#[trigger] d[j]).0 != key,
    ensures
        find_key(d, key) == find_key(d.skip(i), key),
    decreases i,
{
    if i > 0 {
        assert(d.skip(i - 1).drop_first() =~= d.skip(i));
        lemma_find_key_skip(d, key, i - 1);
        if d.skip(i - 1).len() > 0 {
            assert(d.skip(i - 1)[0] == d[i - 1]);
        }
    } else {
        assert(d.skip(0) =~= d);
    }
}

/// Looks a key up in a parsed document.
fn doc_find<'a>(doc: &'a TomlDoc, key: &str) -> (r: Option<&'a TomlItem>)
    ensures
        match r {
            Some(item) => find_key(doc.deep_view(), key@) == Some(item.deep_view()),
            None => find_key(doc.deep_view(), key@) is None,
        },
{
    let ghost dv = doc.deep_view();
    let mut i: usize = 0;
    while i < doc.entries.len()
        invariant
            dv == doc.deep_view(),
            dv.len() == doc.entries@.len(),
            0 <= i <= dv.len(),
            forall|j: int| 0 <= j < i ==> (#[trigger] dv[j]).0 != key@,
        decreases dv.len() - i,
    {
        if str_eq(doc.entries[i].0.as_str(), key) {
            proof {
                lemma_find_key_skip(dv, key@, i as int);
                assert(dv.skip(i as int)[0] == dv[i as int]);
            }
            return Some(&doc.entries[i].1);
        }
        i += 1;
    }
    proof {
        lemma_find_key_skip(dv, key@, dv.len() as int);
    }
    None
}

// ---------------------------------------------------------------------------
// The identity-table record: one table of path-to-id pairs.
// ---------------------------------------------------------------------------

/// The document holding an identity table.
pub open spec fn path_map_docv(es: Seq<(Seq<char>, Seq<char>)>) -> Seq<(Seq<char>, ItemV)> {
    seq![("path_map"@, ItemV::StrTable(es))]
}

/// The text of an identity-table record.
pub open spec fn path_map_toml(es: Seq<(Seq<char>, Seq<char>)>) -> Seq<char> {
    toml_of_docv(path_map_docv(es))
}

/// The entries an identity-table text parses to: the table under the
/// record's key, an empty table if the key is absent, nothing on any
/// parse failure or other shape.
pub open spec fn path_map_of_toml(s: Seq<char>) -> Option<Seq<(Seq<char>, Seq<char>)>> {
    match docv_of_toml(s) {
        None => None,
        Some(d) => match find_key(d, "path_map"@) {
            None => Some(Seq::empty()),
            Some(ItemV::StrTable(es)) => Some(es),
            Some(_) => None,
        },
    }
}

/// Writes an identity table as record text.
pub fn encode_path_map(entries: &Vec<(String, String)>) -> (r: String)
    ensures
        r@ == path_map_toml(entries.deep_view()),
{
    let es = clone_pair_vec(entries);
    let mut doc_entries: Vec<(String, TomlItem)> = Vec::new();
    doc_entries.push((String::from_str("path_map"), TomlItem::StrTable(es)));
    let doc = TomlDoc { entries: doc_entries };
    proof {
        assert(doc.deep_view() =~= path_map_docv(entries.deep_view()));
    }
    encode_doc_raw(&doc).unwrap()
}

/// Reads an identity table out of record text. Reloading what
/// [`encode_path_map`] wrote for entries with pairwise distinct keys
/// restores exactly those entries.
pub fn parse_path_map(s: &str) -> (r: Option<Vec<(String, String)>>)
    ensures
        r.deep_view() == path_map_of_toml(s@),
        s@.len() == 0 ==> r.deep_view() == Some(Seq::<(Seq<char>, Seq<char>)>::empty()),
        forall|es: Seq<(Seq<char>, Seq<char>)>|
            unique_keys(es) && s@ == path_map_toml(es) ==> r.deep_view() == Some(es),
{
    let doc = match parse_doc_raw(s) {
        None => {
            return None;
        },
        Some(d) => d,
    };
    proof {
        assert forall|es: Seq<(Seq<char>, Seq<char>)>|
            unique_keys(es) && s@ == path_map_toml(es) implies path_map_of_toml(s@) == Some::<
            Seq<(Seq<char>, Seq<char>)>,
        >(es) by {
            assert(wf_docv(path_map_docv(es)));
            assert(docv_of_toml(s@) == Some(path_map_docv(es)));
        }
    }
    match doc_find(&doc, "path_map") {
        None => Some(Vec::new()),
        Some(TomlItem::StrTable(ps)) => Some(clone_pair_vec(ps)),
        Some(_) => None,
    }
}

// ---------------------------------------------------------------------------
// The per-environment state record: one list of executed trick names.
// ---------------------------------------------------------------------------

/// The document holding an environment's executed tricks.
pub open spec fn env_state_docv(ts: Seq<Seq<char>>) -> Seq<(Seq<char>, ItemV)> {
    seq![("executed_tricks"@, ItemV::StrList(ts))]
}

/// The text of a state record.
pub open spec fn env_state_toml(ts: Seq<Seq<char>>) -> Seq<char> {
    toml_of_docv(env_state_docv(ts))
}

/// The trick list a state-record text parses to.
pub open spec fn env_state_of_toml(s: Seq<char>) -> Option<Seq<Seq<char>>> {
    match docv_of_toml(s) {
        None => None,
        Some(d) => match find_key(d, "executed_tricks"@) {
            None => Some(Seq::empty()),
            Some(ItemV::StrList(ts)) => Some(ts),
            Some(_) => None,
        },
    }
}

/// Writes a trick list as record text.
pub fn encode_env_state(tricks: &Vec<String>) -> (r: String)
    ensures
        r@ == env_state_toml(tricks.deep_view()),
{
    let ts = clone_string_vec(tricks);
    let mut doc_entries: Vec<(String, TomlItem)> = Vec::new();
    doc_entries.push((String::from_str("executed_tricks"), TomlItem::StrList(ts)));
    let doc = TomlDoc { entries: doc_entries };
    proof {
        assert(doc.deep_view() =~= env_state_docv(tricks.deep_view()));
    }
    encode_doc_raw(&doc).unwrap()
}

/// Reads a trick list out of record text. Reloading what
/// [`encode_env_state`] wrote restores exactly the written list.
pub fn parse_env_state(s: &str) -> (r: Option<Vec<String>>)
    ensures
        r.deep_view() == env_state_of_toml(s@),
        s@.len() == 0 ==> r.deep_view() == Some(Seq::<Seq<char>>::empty()),
        forall|ts: Seq<Seq<char>>| s@ == env_state_toml(ts) ==> r.deep_view() == Some(ts),
{
    let doc = match parse_doc_raw(s) {
        None => {
            return None;
        },
        Some(d) => d,
    };
    proof {
        assert forall|ts: Seq<Seq<char>>| s@ == env_state_toml(ts) implies env_state_of_toml(s@)
            == Some::<Seq<Seq<char>>>(ts) by {
            assert(wf_docv(env_state_docv(ts)));
            assert(docv_of_toml(s@) == Some(env_state_docv(ts)));
        }
    }
    match doc_find(&doc, "executed_tricks") {
        None => Some(Vec::new()),
        Some(TomlItem::StrList(ts)) => Some(clone_string_vec(ts)),
        Some(_) => None,
    }
}

// ---------------------------------------------------------------------------
// The application config record: one path string.
// ---------------------------------------------------------------------------

/// The document holding the configured data directory.
pub open spec fn config_docv(dir: Seq<char>) -> Seq<(Seq<char>, ItemV)> {
    seq![("data_dir"@, ItemV::Str(dir))]
}

/// The text of a config record.
pub open spec fn config_toml(dir: Seq<char>) -> Seq<char> {
    toml_of_docv(config_docv(dir))
}

/// The configured directory a config text parses to: `Some(None)` when the
/// key is absent, `None` on any parse failure or other shape.
pub open spec fn config_of_toml(s: Seq<char>) -> Option<Option<Seq<char>>> {
    match docv_of_toml(s) {
        None => None,
        Some(d) => match find_key(d, "data_dir"@) {
            None => Some(None),
            Some(ItemV::Str(dir)) => Some(Some(dir)),
            Some(_) => None,
        },
    }
}

/// Writes a config record holding `dir`.
pub fn encode_config(dir: &String) -> (r: String)
    ensures
        r@ == config_toml(dir@),
{
    let mut doc_entries: Vec<(String, TomlItem)> = Vec::new();
    doc_entries.push((String::from_str("data_dir"), TomlItem::Str(dir.clone())));
    let doc = TomlDoc { entries: doc_entries };
    proof {
        assert(doc.deep_view() =~= config_docv(dir@));
    }
    encode_doc_raw(&doc).unwrap()
}

/// Reads the configured directory out of config text. Reloading what
/// [`encode_config`] wrote restores exactly the written directory.
pub fn parse_config(s: &str) -> (r: Option<Option<String>>)
    ensures
        r.deep_view() == config_of_toml(s@),
        s@.len() == 0 ==> r.deep_view() == Some(None::<Seq<char>>),
        forall|dir: Seq<char>| s@ == config_toml(dir) ==> r.deep_view() == Some(Some(dir)),
{
    let doc = match parse_doc_raw(s) {
        None => {
            return None;
        },
        Some(d) => d,
    };
    proof {
        assert forall|dir: Seq<char>| s@ == config_toml(dir) implies config_of_toml(s@) == Some(
            Some(dir),
        ) by {
            assert(wf_docv(config_docv(dir)));
            assert(docv_of_toml(s@) == Some(config_docv(dir)));
        }
    }
    match doc_find(&doc, "data_dir") {
        None => Some(None),
        Some(TomlItem::Str(dir)) => Some(Some(dir.clone())),
        Some(_) => None,
    }
}

} // verus!
