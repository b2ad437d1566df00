//! Nested-environment detection.
//!
//! An executable that lives inside the isolated runtime prefix of an
//! environment this tool created earlier must be run in that environment,
//! not in a freshly created sibling. The detector walks the executable's
//! ancestors for the nearest one named like the runtime-prefix marker and
//! treats that ancestor's parent as a candidate environment directory. The
//! candidate counts only if its own path text contains the data
//! directory's text; the caller must still confirm that the candidate holds
//! a state record before accepting it.
use vstd::prelude::*;
use vstd::string::*;

use crate::path::{AbsPath, spec_render, lemma_render_prefix, lemma_prefix_contains};
use crate::strutil::{spec_contains, str_eq, contains_str};

verus! {

/// The name of the isolated runtime prefix inside an environment directory.
pub open spec fn marker() -> Seq<char> {
    ".wine"@
}

/// The largest index `<= j` whose component is the marker, or -1.
pub open spec fn find_marker_from(p: Seq<Seq<char>>, j: int) -> int
    decreases j + 1 when j < p.len()
{
    if j < 0 {
        -1
    } else if p[j] == marker() {
        j
    } else {
        find_marker_from(p, j - 1)
    }
}

/// What detection yields: the candidate environment directory — the
/// nearest marker ancestor's parent — if the candidate's own text
/// contains the data directory's text.
pub open spec fn spec_detect(exec: Seq<Seq<char>>, data: Seq<Seq<char>>) -> Option<
    Seq<Seq<char>>,
> {
    let j = find_marker_from(exec, exec.len() - 2);
    if j >= 0 && spec_contains(spec_render(exec.take(j)), spec_render(data)) {
        Some(exec.take(j))
    } else {
        None
    }
}

/// Walks the executable's ancestors for the nearest runtime-prefix marker
/// and returns the candidate environment directory it points at, or `None`
/// when the walk reaches the root or the containment check fails.
pub fn get_base_env_dir_from_exec_path(exec_path: &AbsPath, data_dir: &AbsPath) -> (r: Option<
    AbsPath,
>)
    requires
        exec_path.wf(),
    ensures
        r matches Some(d) ==> spec_detect(exec_path@, data_dir@) == Some(d@) && d.wf(),
        r is None ==> spec_detect(exec_path@, data_dir@) is None,
{
    let n = exec_path.depth();
    if n < 2 {
        return None;
    }
    let mut j: usize = n - 2;
    let mut found = false;
    while !found
        invariant
            exec_path.wf(),
            n == exec_path@.len(),
            2 <= n,
            0 <= j <= n - 2,
            !found ==> find_marker_from(exec_path@, n - 2) == find_marker_from(
                exec_path@,
                j as int,
            ),
            found ==> exec_path@[j as int] == marker() && find_marker_from(exec_path@, n - 2)
                == j,
        decreases (if found { 0int } else { j + 1 }),
    {
        if str_eq(exec_path.component(j).as_str(), ".wine") {
            found = true;
        } else if j == 0 {
            proof {
                assert(find_marker_from(exec_path@, -1) == -1);
                assert(find_marker_from(exec_path@, 0) == -1);
            }
            return None;
        } else {
            j -= 1;
        }
    }
    let candidate = exec_path.prefix(j);
    let candidate_text = candidate.render();
    let data_text = data_dir.render();
    if contains_str(candidate_text.as_str(), data_text.as_str()) {
        Some(candidate)
    } else {
        None
    }
}

/// Accepts a detected candidate only if it holds a state record; the
/// caller reports whether one is present on disk.
pub fn accept_candidate(candidate: Option<AbsPath>, has_state_record: bool) -> (r: Option<
    AbsPath,
>)
    ensures
        has_state_record ==> r == candidate,
        !has_state_record ==> r is None,
{
    if has_state_record {
        candidate
    } else {
        None
    }
}

/// Scanning down from `j` to `t` over components that are not the marker
/// leaves the search where it stood.
proof fn lemma_find_marker_skip(p: Seq<Seq<char>>, j: int, t: int)
    requires
        -1 <= t <= j < p.len(),
        forall|i: int| t < i <= j ==> p[i] != marker(),
    ensures
        find_marker_from(p, j) == find_marker_from(p, t),
    decreases j - t,
{
    if j > t {
        lemma_find_marker_skip(p, j - 1, t);
    }
}

/// Nesting idempotence: a path that lies inside the runtime prefix of the
/// environment directory `data ++ [id]` resolves back to that directory, as
/// long as no directory between the prefix and the file reuses the marker
/// name; the environment lies under the data directory, so the containment
/// check holds of it.
pub proof fn lemma_nested_resolution(
    data: Seq<Seq<char>>,
    id: Seq<char>,
    rest: Seq<Seq<char>>,
)
    requires
        rest.len() >= 1,
        forall|i: int| 0 <= i < rest.len() - 1 ==> rest[i] != marker(),
    ensures
        spec_detect(data + seq![id, marker()] + rest, data) == Some(data.push(id)),
{
    let exec = data + seq![id, marker()] + rest;
    let d = data.len() as int;
    assert(exec.len() == d + 2 + rest.len());
    assert(exec[d + 1] == marker());
    assert forall|i: int| d + 1 < i <= exec.len() - 2 implies exec[i] != marker() by {
        assert(exec[i] == rest[i - (d + 2)]);
    }
    lemma_find_marker_skip(exec, exec.len() - 2, d + 1);
    assert(find_marker_from(exec, d + 1) == d + 1);
    assert(find_marker_from(exec, exec.len() - 2) == d + 1);
    assert(exec.take(d + 1) =~= data + seq![id]);
    lemma_render_prefix(data, seq![id]);
    lemma_prefix_contains(spec_render(data + seq![id]), spec_render(data));
    assert(exec.take(d + 1) =~= data.push(id));
}

} // verus!
