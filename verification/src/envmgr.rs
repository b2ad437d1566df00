//! The environment lifecycle: resolving the data directory, resolving an
//! executable to its environment directory, and the handle a resolved
//! environment exposes.
//!
//! All file reading and writing happens outside this crate; these
//! functions turn record text into decisions and produce the record text
//! that must be written back, so that every rule — defaulting, append-only
//! identity, rewrite-before-use — is stated and checked here.
use vstd::prelude::*;
use vstd::string::*;

use crate::codec::{config_of_toml, config_toml, encode_config, path_map_of_toml, path_map_toml,
    unique_keys};
use crate::detect::marker;
use crate::errors::EnvError;
use crate::identity::{IdentityTable, parse_identity_table, spec_lookup, spec_resolve};
use crate::codec::{env_state_of_toml, env_state_toml};
use crate::path::{AbsPath, component_ok, wf_component};
use crate::tricks::{EnvState, no_dups, parse_env_record, spec_dedup};

verus! {

/// The name of the per-environment state record file.
pub open spec fn record_name() -> Seq<char> {
    "conf.toml"@
}

/// Resolves the data directory from the config record: the configured
/// path when one is stored; otherwise the caller's platform default, along
/// with the config text that must be persisted before first use. Fails
/// with `ConfigIo` exactly when the record does not parse.
pub fn resolve_data_dir(config_text: &str, default_dir: &String) -> (r: Result<
    (String, Option<String>),
    EnvError,
>)
    ensures
        r matches Err(e) ==> e is ConfigIo,
        r is Err <==> config_of_toml(config_text@) is None,
        (match config_of_toml(config_text@) {
            Some(Some(dir)) => r matches Ok(v) && v.0@ == dir && v.1 is None,
            _ => true,
        }),
        (match config_of_toml(config_text@) {
            Some(None) => r matches Ok(v) && v.0@ == default_dir@ && (v.1 matches Some(t)
                && t@ == config_toml(default_dir@)),
            _ => true,
        }),
        config_text@.len() == 0 ==> (r matches Ok(v) && v.0@ == default_dir@ && v.1 is Some),
{
    match crate::codec::parse_config(config_text) {
        None => Err(EnvError::ConfigIo),
        Some(Some(dir)) => Ok((dir, None)),
        Some(None) => Ok((default_dir.clone(), Some(encode_config(default_dir)))),
    }
}

/// What resolving an executable against the identity table yields.
pub struct ResolvedEnv {
    /// The environment directory, `data_dir` extended by the id.
    pub env_dir: AbsPath,
    /// The environment's stable id.
    pub id: String,
    /// The table after resolution.
    pub table: IdentityTable,
    /// When the table grew, the record text that must be written back
    /// before the id is used; `None` when the table stood unchanged.
    pub rewritten_table: Option<String>,
}

/// Resolves an executable's path text to its environment directory
/// through the identity table: a stored id is returned unchanged, a new
/// path gets a fresh random id appended to the table, and the rewritten
/// table text must then be persisted before the id is used. Fails with
/// `ConfigIo` when the table text does not parse or repeats a path, and —
/// deliberately — when a stored id cannot name a single path component
/// (empty, or holding the separator): such a table was not written by this
/// crate and is treated as corrupted rather than joined into a path.
pub fn resolve_environment(table_text: &str, exec_key: &String, data_dir: &AbsPath) -> (r: Result<
    ResolvedEnv,
    EnvError,
>)
    requires
        data_dir.wf(),
    ensures
        r matches Err(e) ==> e is ConfigIo,
        path_map_of_toml(table_text@) is None ==> r is Err,
        (match path_map_of_toml(table_text@) {
            Some(es) => !unique_keys(es) ==> r is Err,
            None => true,
        }),
        (match path_map_of_toml(table_text@) {
            Some(es) => unique_keys(es) ==> (match spec_lookup(es, exec_key@) {
                Some(id0) => (wf_component(id0) ==> (r matches Ok(v) && v.id@ == id0
                    && v.rewritten_table is None)) && (!wf_component(id0) ==> r is Err),
                None => r is Ok,
            }),
            None => true,
        }),
        table_text@.len() == 0 ==> r is Ok,
        r matches Ok(v) ==> (match path_map_of_toml(table_text@) {
            Some(es) => {
                &&& unique_keys(es)
                &&& wf_component(v.id@)
                &&& (v.id@, v.table@) == (spec_resolve(es, exec_key@, v.id@).0, spec_resolve(
                    es,
                    exec_key@,
                    v.id@,
                ).1)
                &&& v.table.wf()
                &&& spec_lookup(v.table@, exec_key@) == Some(v.id@)
                &&& v.env_dir@ == data_dir@.push(v.id@)
                &&& v.env_dir.wf()
                &&& (match spec_lookup(es, exec_key@) {
                    Some(id0) => v.id@ == id0 && v.rewritten_table is None,
                    None => v.rewritten_table matches Some(t) && t@ == path_map_toml(
                        es.push((exec_key@, v.id@)),
                    ) && v.id@.len() == 21,
                })
            },
            None => false,
        }),
{
    let mut table = match parse_identity_table(table_text) {
        None => {
            return Err(EnvError::ConfigIo);
        },
        Some(t) => t,
    };
    let (id, inserted) = table.resolve(exec_key);
    proof {
        if inserted {
            assert forall|i: int| 0 <= i < id@.len() implies id@[i] != '/' by {
                assert(crate::identity::id_char(id@[i]));
            }
            assert(wf_component(id@));
        }
    }
    if !component_ok(id.as_str()) {
        return Err(EnvError::ConfigIo);
    }
    let rewritten_table = if inserted {
        Some(table.encode())
    } else {
        None
    };
    let env_dir = data_dir.join(&id);
    Ok(ResolvedEnv { env_dir, id, table, rewritten_table })
}

/// A resolved environment's working parts: its directory and its loaded
/// setup state. The directory layout (the directory itself, its runtime
/// prefix) is created by the caller; the paths below say where.
pub struct EnvironmentHandle {
    /// The environment directory.
    pub env_dir: AbsPath,
    /// The setup state loaded from the state record.
    pub state: EnvState,
}

impl EnvironmentHandle {
    /// Loads a handle from the environment's state record text (an absent
    /// record reads as empty text). Fails with `EnvironmentIo` when the
    /// record does not parse: a corrupted environment must not pass for a
    /// fresh one.
    pub fn from_record(env_dir: AbsPath, record_text: &str) -> (r: Result<
        EnvironmentHandle,
        EnvError,
    >)
        requires
            env_dir.wf(),
        ensures
            r matches Err(e) ==> e is EnvironmentIo,
            r is Err <==> env_state_of_toml(record_text@) is None,
            record_text@.len() == 0 ==> (r matches Ok(h) && h.state@ == Seq::<Seq<char>>::empty()),
            r matches Ok(h) ==> h.env_dir@ == env_dir@ && h.env_dir.wf() && h.state.wf() && (
            match env_state_of_toml(record_text@) {
                Some(ts) => h.state@ == spec_dedup(ts),
                None => false,
            }),
            forall|ts: Seq<Seq<char>>|
                no_dups(ts) && record_text@ == env_state_toml(ts) ==> (r matches Ok(h)
                    && h.state@ == ts),
    {
        match parse_env_record(record_text) {
            None => Err(EnvError::EnvironmentIo),
            Some(state) => Ok(EnvironmentHandle { env_dir, state }),
        }
    }

    /// Where the state record lives: `env_dir/conf.toml`.
    pub fn state_record_path(&self) -> (r: AbsPath)
        requires
            self.env_dir.wf(),
        ensures
            r@ == self.env_dir@.push(record_name()),
            r.wf(),
    {
        let name = String::from_str("conf.toml");
        proof {
            reveal_strlit("conf.toml");
            assert(wf_component(name@)) by {
                assert(forall|i: int| 0 <= i < name@.len() ==> name@[i] != '/');
            }
        }
        self.env_dir.join(&name)
    }

    /// Where the isolated runtime prefix lives: `env_dir/.wine`.
    pub fn wine_prefix_path(&self) -> (r: AbsPath)
        requires
            self.env_dir.wf(),
        ensures
            r@ == self.env_dir@.push(marker()),
            r.wf(),
    {
        let name = String::from_str(".wine");
        proof {
            reveal_strlit(".wine");
            assert(wf_component(name@)) by {
                assert(forall|i: int| 0 <= i < name@.len() ==> name@[i] != '/');
            }
        }
        self.env_dir.join(&name)
    }
}

/// The argument list handed to the compatibility-layer runtime: the
/// executable's path text, then the forwarded arguments verbatim.
pub fn wine_invocation(exec_path_text: &String, forwarded: &Vec<String>) -> (r: Vec<String>)
    ensures
        r.deep_view() == seq![exec_path_text@] + forwarded.deep_view(),
{
    let mut r: Vec<String> = Vec::new();
    r.push(exec_path_text.clone());
    let mut i: usize = 0;
    while i < forwarded.len()
        invariant
            0 <= i <= forwarded@.len(),
            r@.len() == 1 + i,
            r@[0]@ == exec_path_text@,
            forall|j: int| 0 <= j < i ==> r@[j + 1]@ == #[trigger] forwarded@[j]@,
        decreases forwarded@.len() - i,
    {
        r.push(forwarded[i].clone());
        i += 1;
    }
    proof {
        assert(r.deep_view() =~= seq![exec_path_text@] + forwarded.deep_view());
    }
    r
}

/// Turns the launched program's reported status into the invocation's
/// outcome.
pub fn launch_outcome(success: bool, status: i32) -> (r: Result<(), EnvError>)
    ensures
        success <==> r is Ok,
        !success ==> (r matches Err(e) && e matches EnvError::Launch { status: st } && st
            == status),
{
    if success {
        Ok(())
    } else {
        Err(EnvError::Launch { status })
    }
}

} // verus!
