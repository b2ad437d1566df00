//! The persistent identity map from executable path text to environment id.
//!
//! The table is append-only: a path, once seen, keeps its id for the
//! lifetime of the data directory. Fresh ids are drawn from a random
//! generator; the caller persists the rewritten table before using a fresh
//! id, so an id handed out is never lost.
use vstd::prelude::*;
use vstd::string::*;

use crate::codec::{encode_path_map, parse_path_map, path_map_toml, path_map_of_toml, unique_keys};
use crate::strutil::str_eq;

verus! {

/// A character the id generator can produce.
pub open spec fn id_char(c: char) -> bool {
    ('a' <= c <= 'z') || ('A' <= c <= 'Z') || ('0' <= c <= '9') || c == '_' || c == '-'
}

/// Relies on nanoid::format with nanoid::rngs::default and the
/// nanoid::alphabet::SAFE alphabet: the result is exactly 21 characters,
/// each drawn from `A-Za-z0-9_-`. The value itself is random.
#[verifier::external_body]
fn fresh_id_raw() -> (r: String)
    ensures
        r@.len() == 21,
        forall|i: int| 0 <= i < r@.len() ==> id_char(#[trigger] r@[i]),
{
    nanoid::format(nanoid::rngs::default, &nanoid::alphabet::SAFE, 21)
}

/// The id stored for `key`, if any.
pub open spec fn spec_lookup(es: Seq<(Seq<char>, Seq<char>)>, key: Seq<char>) -> Option<Seq<char>>
    decreases es.len(),
{
    if es.len() == 0 {
        None
    } else if es[0].0 == key {
        Some(es[0].1)
    } else {
        spec_lookup(es.drop_first(), key)
    }
}

/// What resolving `key` against `es` yields when `fresh` would be the next
/// generated id: the stored id and the unchanged table, or `fresh` and the
/// table extended by the new pair.
pub open spec fn spec_resolve(
    es: Seq<(Seq<char>, Seq<char>)>,
    key: Seq<char>,
    fresh: Seq<char>,
) -> (Seq<char>, Seq<(Seq<char>, Seq<char>)>) {
    match spec_lookup(es, key) {
        Some(id) => (id, es),
        None => (fresh, es.push((key, fresh))),
    }
}

/// A stored id is a stored id: some entry holds it.
pub proof fn lemma_lookup_some_entry(es: Seq<(Seq<char>, Seq<char>)>, key: Seq<char>)
    requires
        spec_lookup(es, key) is Some,
    ensures
        exists|i: int|
            0 <= i < es.len() && (#[trigger] es[i]).0 == key && es[i].1 == spec_lookup(
                es,
                key,
            ).unwrap(),
    decreases es.len(),
{
    if es[0].0 != key {
        lemma_lookup_some_entry(es.drop_first(), key);
        let i = choose|i: int|
            0 <= i < es.drop_first().len() && (#[trigger] es.drop_first()[i]).0 == key
                && es.drop_first()[i].1 == spec_lookup(es.drop_first(), key).unwrap();
        assert(es[i + 1] == es.drop_first()[i]);
    }
}

/// An absent key is absent from every entry.
pub proof fn lemma_lookup_none_no_entry(es: Seq<(Seq<char>, Seq<char>)>, key: Seq<char>)
    requires
        spec_lookup(es, key) is None,
    ensures
        forall|i: int| 0 <= i < es.len() ==> (#[trigger] es[i]).0 != key,
    decreases es.len(),
{
    if es.len() > 0 {
        lemma_lookup_none_no_entry(es.drop_first(), key);
        assert forall|i: int| 0 <= i < es.len() implies (#[trigger] es[i]).0 != key by {
            if i > 0 {
                assert(es[i] == es.drop_first()[i - 1]);
            }
        }
    }
}

/// Appending a pair leaves every other key's lookup unchanged, and the
/// appended key looks up to the appended id when it was absent before.
pub proof fn lemma_lookup_push(
    es: Seq<(Seq<char>, Seq<char>)>,
    key: Seq<char>,
    id: Seq<char>,
    probe: Seq<char>,
)
    ensures
        probe != key ==> spec_lookup(es.push((key, id)), probe) == spec_lookup(es, probe),
        probe == key && spec_lookup(es, key) is None ==> spec_lookup(es.push((key, id)), probe)
            == Some(id),
    decreases es.len(),
{
    if es.len() == 0 {
        assert(es.push((key, id))[0] == (key, id));
        assert(es.push((key, id)).drop_first() =~= es);
    } else {
        assert(es.push((key, id))[0] == es[0]);
        assert(es.push((key, id)).drop_first() =~= es.drop_first().push((key, id)));
        lemma_lookup_push(es.drop_first(), key, id, probe);
    }
}

/// The identity table: path text to id, in insertion order, no path twice.
pub struct IdentityTable {
    entries: Vec<(String, String)>,
}

impl View for IdentityTable {
    type V = Seq<(Seq<char>, Seq<char>)>;

    closed spec fn view(&self) -> Seq<(Seq<char>, Seq<char>)> {
        self.entries.deep_view()
    }
}

impl IdentityTable {
    /// No path occurs twice.
    pub open spec fn wf(&self) -> bool {
        unique_keys(self@)
    }

    /// The empty table.
    pub fn new() -> (r: IdentityTable)
        ensures
            r@ == Seq::<(Seq<char>, Seq<char>)>::empty(),
            r.wf(),
    {
        let r = IdentityTable { entries: Vec::new() };
        proof {
            assert(r@ =~= Seq::<(Seq<char>, Seq<char>)>::empty());
        }
        r
    }

    /// Builds a table from parsed entries, rejecting a repeated path.
    pub fn from_entries(entries: Vec<(String, String)>) -> (r: Option<IdentityTable>)
        ensures
            r matches Some(t) ==> t@ == entries.deep_view() && t.wf(),
            r is None ==> !unique_keys(entries.deep_view()),
    {
        let ghost ev = entries.deep_view();
        let mut i: usize = 0;
        while i < entries.len()
            invariant
                ev == entries.deep_view(),
                ev.len() == entries@.len(),
                0 <= i <= ev.len(),
                forall|a: int, b: int|
                    0 <= a < b < i ==> (#[trigger] ev[a]).0 != (#[trigger] ev[b]).0,
            decreases ev.len() - i,
        {
            let mut j: usize = 0;
            while j < i
                invariant
                    ev == entries.deep_view(),
                    ev.len() == entries@.len(),
                    0 <= j <= i < ev.len(),
                    forall|a: int| 0 <= a < j ==> (#[trigger] ev[a]).0 != ev[i as int].0,
                decreases i - j,
            {
                if str_eq(entries[j].0.as_str(), entries[i].0.as_str()) {
                    proof {
                        assert((ev[j as int]).0 == (ev[i as int]).0);
                        assert(!unique_keys(ev));
                    }
                    return None;
                }
                j += 1;
            }
            i += 1;
        }
        let r = IdentityTable { entries };
        Some(r)
    }

    /// The entries, oldest first.
    pub fn entries(&self) -> (r: &Vec<(String, String)>)
        ensures
            r.deep_view() == self@,
    {
        &self.entries
    }

    /// The id stored for `path`, if any.
    pub fn lookup(&self, path: &String) -> (r: Option<String>)
        ensures
            r.deep_view() == spec_lookup(self@, path@),
    {
        let ghost ev = self@;
        proof {
            assert(ev.skip(0) =~= ev);
        }
        let mut i: usize = 0;
        while i < self.entries.len()
            invariant
                ev == self@,
                ev.len() == self.entries@.len(),
                0 <= i <= ev.len(),
                spec_lookup(ev, path@) == spec_lookup(ev.skip(i as int), path@),
            decreases ev.len() - i,
        {
            proof {
                assert(ev.skip(i as int)[0] == ev[i as int]);
                assert(ev.skip(i as int).drop_first() =~= ev.skip(i + 1));
            }
            if str_eq(self.entries[i].0.as_str(), path.as_str()) {
                return Some(self.entries[i].1.clone());
            }
            i += 1;
        }
        proof {
            assert(ev.skip(ev.len() as int) =~= Seq::<(Seq<char>, Seq<char>)>::empty());
        }
        None
    }

    /// Resolves `path` to an id, installing `fresh` when the path is new.
    /// Returns the id and whether the table changed (and must be rewritten
    /// before the id is used).
    pub fn resolve_with_id(&mut self, path: &String, fresh: String) -> (r: (String, bool))
        requires
            old(self).wf(),
        ensures
            final(self).wf(),
            (r.0@, final(self)@) == spec_resolve(old(self)@, path@, fresh@),
            r.1 == (spec_lookup(old(self)@, path@) is None),
            spec_lookup(final(self)@, path@) == Some(r.0@),
    {
        match self.lookup(path) {
            Some(id) => {
                proof {
                    lemma_lookup_some_entry(self@, path@);
                }
                (id, false)
            },
            None => {
                proof {
                    lemma_lookup_none_no_entry(self@, path@);
                    lemma_lookup_push(self@, path@, fresh@, path@);
                }
                let ghost oldv = self@;
                self.entries.push((path.clone(), fresh.clone()));
                proof {
                    assert(self@ =~= oldv.push((path@, fresh@)));
                    assert forall|a: int, b: int| 0 <= a < b < self@.len() implies (
                    #[trigger] self@[a]).0 != (#[trigger] self@[b]).0 by {
                        if b < self@.len() - 1 {
                            assert(self@[a] == oldv[a] && self@[b] == oldv[b]);
                        } else {
                            assert(self@[a] == oldv[a]);
                        }
                    }
                }
                (fresh, true)
            },
        }
    }

    /// Resolves `path` to its stable id, generating a fresh random one on
    /// first sight. Returns the id and whether the table changed.
    pub fn resolve(&mut self, path: &String) -> (r: (String, bool))
        requires
            old(self).wf(),
        ensures
            final(self).wf(),
            (r.0@, final(self)@) == spec_resolve(old(self)@, path@, r.0@),
            r.1 == (spec_lookup(old(self)@, path@) is None),
            spec_lookup(final(self)@, path@) == Some(r.0@),
            r.1 ==> r.0@.len() == 21 && forall|i: int|
                0 <= i < r.0@.len() ==> id_char(#[trigger] r.0@[i]),
    {
        let fresh = fresh_id_raw();
        let r = self.resolve_with_id(path, fresh);
        proof {
            if spec_lookup(old(self)@, path@) is Some {
                assert((r.0@, self@) == spec_resolve(old(self)@, path@, r.0@));
            }
        }
        r
    }

    /// Writes the table as record text.
    pub fn encode(&self) -> (r: String)
        ensures
            r@ == path_map_toml(self@),
    {
        encode_path_map(&self.entries)
    }
}

/// Reads a table from record text. Reloading what [`IdentityTable::encode`]
/// wrote restores a table with the same entries.
pub fn parse_identity_table(s: &str) -> (r: Option<IdentityTable>)
    ensures
        r matches Some(t) ==> path_map_of_toml(s@) == Some(t@) && t.wf(),
        s@.len() == 0 ==> (r matches Some(t) && t@ == Seq::<(Seq<char>, Seq<char>)>::empty()),
        r is None ==> path_map_of_toml(s@) is None || !(match path_map_of_toml(s@) {
            Some(es) => unique_keys(es),
            None => false,
        }),
        forall|es: Seq<(Seq<char>, Seq<char>)>|
            unique_keys(es) && s@ == path_map_toml(es) ==> (r matches Some(t) && t@ == es),
{
    match parse_path_map(s) {
        None => None,
        Some(entries) => IdentityTable::from_entries(entries),
    }
}

/// Ids are pairwise distinct across the table.
pub open spec fn distinct_ids(es: Seq<(Seq<char>, Seq<char>)>) -> bool {
    forall|i: int, j: int| 0 <= i < j < es.len() ==> (#[trigger] es[i]).1 != (#[trigger] es[j]).1
}

/// Identity stability: resolving the same path a second time returns the
/// id the first resolution returned, and leaves the table as it stood,
/// whatever fresh ids the generator would offer.
pub proof fn lemma_identity_stable(
    es: Seq<(Seq<char>, Seq<char>)>,
    key: Seq<char>,
    fresh1: Seq<char>,
    fresh2: Seq<char>,
)
    ensures
        ({
            let (id1, es1) = spec_resolve(es, key, fresh1);
            let (id2, es2) = spec_resolve(es1, key, fresh2);
            id2 == id1 && es2 == es1
        }),
{
    if spec_lookup(es, key) is None {
        lemma_lookup_push(es, key, fresh1, key);
    }
}

/// Identity uniqueness: resolving two distinct paths yields two distinct
/// ids, as long as the freshly drawn ids collide neither with each other
/// nor with an id already stored — which the generator makes overwhelmingly
/// likely, never certain.
pub proof fn lemma_identity_unique(
    es: Seq<(Seq<char>, Seq<char>)>,
    key1: Seq<char>,
    key2: Seq<char>,
    fresh1: Seq<char>,
    fresh2: Seq<char>,
)
    requires
        distinct_ids(es),
        key1 != key2,
        fresh1 != fresh2,
        forall|i: int| 0 <= i < es.len() ==> (#[trigger] es[i]).1 != fresh1,
        forall|i: int| 0 <= i < es.len() ==> (#[trigger] es[i]).1 != fresh2,
    ensures
        ({
            let (id1, es1) = spec_resolve(es, key1, fresh1);
            let (id2, es2) = spec_resolve(es1, key2, fresh2);
            id1 != id2 && distinct_ids(es2)
        }),
{
    let (id1, es1) = spec_resolve(es, key1, fresh1);
    let (id2, es2) = spec_resolve(es1, key2, fresh2);
    lemma_lookup_push(es, key1, fresh1, key2);
    if spec_lookup(es, key1) is Some {
        lemma_lookup_some_entry(es, key1);
    } else {
        assert forall|i: int, j: int| 0 <= i < j < es1.len() implies (#[trigger] es1[i]).1 != (
        #[trigger] es1[j]).1 by {
            if j < es1.len() - 1 {
                assert(es1[i] == es[i] && es1[j] == es[j]);
            } else {
                assert(es1[i] == es[i] && es1[j] == (key1, fresh1));
            }
        }
        assert(forall|i: int| 0 <= i < es1.len() - 1 ==> (#[trigger] es1[i]).1 != fresh2);
        assert(es1[es1.len() - 1].1 == fresh1);
    }
    if spec_lookup(es1, key2) is Some {
        lemma_lookup_some_entry(es1, key2);
        if spec_lookup(es, key1) is Some {
            lemma_lookup_some_entry(es, key1);
        }
    } else {
        if spec_lookup(es, key1) is Some {
            lemma_lookup_some_entry(es, key1);
        }
        assert forall|i: int, j: int| 0 <= i < j < es2.len() implies (#[trigger] es2[i]).1 != (
        #[trigger] es2[j]).1 by {
            if j < es2.len() - 1 {
                assert(es2[i] == es1[i] && es2[j] == es1[j]);
            } else {
                assert(es2[i] == es1[i] && es2[j] == (key2, fresh2));
                if spec_lookup(es, key1) is None && i == es1.len() - 1 {
                    assert(es2[i].1 == fresh1);
                }
            }
        }
    }
}

} // verus!
