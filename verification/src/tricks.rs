//! The per-environment setup state and the trick execution plan.
//!
//! Requested trick names arrive in comma-separated groups and are
//! flattened in order. A trick already recorded in the environment's state
//! is skipped; each success is recorded (and persisted by the caller)
//! before the next trick runs, so a crash or a failing trick loses at most
//! the trick in flight.
use vstd::prelude::*;
use vstd::string::*;

use crate::codec::{encode_env_state, parse_env_state, env_state_toml, env_state_of_toml};
use crate::errors::EnvError;
use crate::strutil::{str_eq, clone_string_vec};

verus! {

/// The first position of `c` in `s`, or -1.
pub open spec fn find_char(s: Seq<char>, c: char) -> int
    decreases s.len(),
{
    if s.len() == 0 {
        -1
    } else if s[0] == c {
        0
    } else {
        let r = find_char(s.drop_first(), c);
        if r == -1 {
            -1
        } else {
            r + 1
        }
    }
}

/// A scan that saw no `c` before `i`, and `c` at `i` unless it ran out,
/// pins `find_char` down.
proof fn lemma_find_char_at(s: Seq<char>, c: char, i: int)
    requires
        0 <= i <= s.len(),
        forall|j: int| 0 <= j < i ==> s[j] != c,
        i < s.len() ==> s[i] == c,
    ensures
        i < s.len() ==> find_char(s, c) == i,
        i == s.len() ==> find_char(s, c) == -1,
    decreases i,
{
    if i == 0 {
        if s.len() > 0 && s[0] != c {
            lemma_find_char_at(s.drop_first(), c, 0);
        }
    } else {
        assert(s[0] != c);
        assert forall|j: int| 0 <= j < i - 1 implies s.drop_first()[j] != c by {
            assert(s.drop_first()[j] == s[j + 1]);
        }
        if i < s.len() {
            assert(s.drop_first()[i - 1] == s[i]);
        }
        lemma_find_char_at(s.drop_first(), c, i - 1);
    }
}

/// A group split at its commas, in order; an empty group is one empty name.
pub open spec fn split_commas(s: Seq<char>) -> Seq<Seq<char>>
    decreases s.len(),
{
    let i = find_char(s, ',');
    if i < 0 || i >= s.len() {
        seq![s]
    } else {
        seq![s.take(i)] + split_commas(s.skip(i + 1))
    }
}

/// All requested groups, flattened in order.
pub open spec fn flatten_groups(gs: Seq<Seq<char>>) -> Seq<Seq<char>>
    decreases gs.len(),
{
    if gs.len() == 0 {
        Seq::empty()
    } else {
        split_commas(gs[0]) + flatten_groups(gs.drop_first())
    }
}

proof fn lemma_flatten_push(gs: Seq<Seq<char>>, x: Seq<char>)
    ensures
        flatten_groups(gs.push(x)) == flatten_groups(gs) + split_commas(x),
    decreases gs.len(),
{
    if gs.len() == 0 {
        assert(gs.push(x)[0] == x);
        assert(gs.push(x).drop_first() =~= gs);
        assert(split_commas(x) + flatten_groups(gs) =~= split_commas(x));
        assert(flatten_groups(gs) + split_commas(x) =~= split_commas(x));
    } else {
        assert(gs.push(x)[0] == gs[0]);
        assert(gs.push(x).drop_first() =~= gs.drop_first().push(x));
        lemma_flatten_push(gs.drop_first(), x);
        assert(split_commas(gs[0]) + (flatten_groups(gs.drop_first()) + split_commas(x))
            =~= (split_commas(gs[0]) + flatten_groups(gs.drop_first())) + split_commas(x));
    }
}

/// Splits one group at its commas.
fn split_group(s: &str) -> (r: Vec<String>)
    ensures
        r.deep_view() == split_commas(s@),
    decreases s@.len(),
{
    let n = s.unicode_len();
    let mut i: usize = 0;
    let mut found = false;
    while !found && i < n
        invariant
            n == s@.len(),
            0 <= i <= n,
            forall|j: int| 0 <= j < i ==> s@[j] != ',',
            found ==> i < n && s@[i as int] == ',',
        decreases (if found { 0int } else { n - i }),
    {
        if s.get_char(i) == ',' {
            found = true;
        } else {
            i += 1;
        }
    }
    proof {
        lemma_find_char_at(s@, ',', i as int);
    }
    if !found {
        let mut r: Vec<String> = Vec::new();
        r.push(s.to_owned());
        proof {
            assert(r.deep_view() =~= split_commas(s@));
        }
        r
    } else {
        let piece = s.substring_char(0, i);
        let rest = s.substring_char(i + 1, n);
        proof {
            assert(rest@ =~= s@.skip(i + 1));
            assert(piece@ =~= s@.take(i as int));
        }
        let tail = split_group(rest);
        let mut r: Vec<String> = Vec::new();
        r.push(piece.to_owned());
        let mut k: usize = 0;
        while k < tail.len()
            invariant
                0 <= k <= tail@.len(),
                r@.len() == 1 + k,
                r@[0]@ == s@.take(i as int),
                forall|j: int| 0 <= j < k ==> r@[j + 1]@ == #[trigger] tail@[j]@,
            decreases tail@.len() - k,
        {
            r.push(tail[k].clone());
            k += 1;
        }
        proof {
            assert(r.deep_view() =~= seq![s@.take(i as int)] + split_commas(s@.skip(i + 1)));
        }
        r
    }
}

/// Flattens the requested groups into the ordered sequence of trick names.
pub fn split_tricks(groups: &Vec<String>) -> (r: Vec<String>)
    ensures
        r.deep_view() == flatten_groups(groups.deep_view()),
{
    let ghost gv = groups.deep_view();
    let mut r: Vec<String> = Vec::new();
    proof {
        assert(gv.take(0) =~= Seq::<Seq<char>>::empty());
        assert(r.deep_view() =~= flatten_groups(gv.take(0)));
    }
    let mut i: usize = 0;
    while i < groups.len()
        invariant
            gv == groups.deep_view(),
            gv.len() == groups@.len(),
            0 <= i <= gv.len(),
            r.deep_view() == flatten_groups(gv.take(i as int)),
        decreases gv.len() - i,
    {
        let pieces = split_group(groups[i].as_str());
        let ghost rv = r.deep_view();
        let mut k: usize = 0;
        while k < pieces.len()
            invariant
                0 <= k <= pieces@.len(),
                r@.len() == rv.len() + k,
                forall|j: int| 0 <= j < rv.len() ==> #[trigger] r@[j]@ == rv[j],
                forall|j: int| 0 <= j < k ==> r@[rv.len() + j]@ == #[trigger] pieces@[j]@,
            decreases pieces@.len() - k,
        {
            r.push(pieces[k].clone());
            k += 1;
        }
        proof {
            lemma_flatten_push(gv.take(i as int), gv[i as int]);
            assert(gv.take(i as int).push(gv[i as int]) =~= gv.take(i + 1));
            assert(r.deep_view() =~= flatten_groups(gv.take(i as int)) + split_commas(
                gv[i as int],
            ));
        }
        i += 1;
    }
    proof {
        assert(gv.take(gv.len() as int) =~= gv);
    }
    r
}

/// No name occurs twice.
pub open spec fn no_dups(ts: Seq<Seq<char>>) -> bool {
    forall|i: int, j: int| 0 <= i < j < ts.len() ==> ts[i] != ts[j]
}

/// The list with later repetitions of a name dropped.
pub open spec fn spec_dedup(ts: Seq<Seq<char>>) -> Seq<Seq<char>>
    decreases ts.len(),
{
    if ts.len() == 0 {
        Seq::empty()
    } else {
        let d = spec_dedup(ts.drop_last());
        if d.contains(ts.last()) {
            d
        } else {
            d.push(ts.last())
        }
    }
}

/// Deduplication never invents a duplicate, keeps every name, and leaves a
/// duplicate-free list as it stands.
pub proof fn lemma_dedup(ts: Seq<Seq<char>>)
    ensures
        no_dups(spec_dedup(ts)),
        forall|t: Seq<char>| spec_dedup(ts).contains(t) <==> ts.contains(t),
        no_dups(ts) ==> spec_dedup(ts) == ts,
    decreases ts.len(),
{
    if ts.len() > 0 {
        lemma_dedup(ts.drop_last());
        let d = spec_dedup(ts.drop_last());
        assert forall|t: Seq<char>| ts.contains(t) implies spec_dedup(ts).contains(t) by {
            let i = choose|i: int| 0 <= i < ts.len() && ts[i] == t;
            if i < ts.len() - 1 {
                assert(ts.drop_last()[i] == t);
                assert(ts.drop_last().contains(t));
                if !d.contains(ts.last()) {
                    let k = choose|k: int| 0 <= k < d.len() && d[k] == t;
                    assert(d.push(ts.last())[k] == t);
                }
            } else {
                if !d.contains(ts.last()) {
                    assert(d.push(ts.last()).last() == t);
                }
            }
        }
        assert forall|t: Seq<char>| spec_dedup(ts).contains(t) implies ts.contains(t) by {
            if d.contains(t) || t == ts.last() {
                if d.contains(t) {
                    assert(ts.drop_last().contains(t));
                    let i = choose|i: int| 0 <= i < ts.drop_last().len() && ts.drop_last()[i]
                        == t;
                    assert(ts[i] == t);
                } else {
                    assert(ts.last() == ts[ts.len() - 1]);
                }
            } else {
                let k = choose|k: int| 0 <= k < spec_dedup(ts).len() && spec_dedup(ts)[k] == t;
                if k < d.len() {
                    assert(d[k] == t);
                }
            }
        }
        if !d.contains(ts.last()) {
            assert forall|i: int, j: int| 0 <= i < j < d.push(ts.last()).len() implies d.push(
                ts.last(),
            )[i] != d.push(ts.last())[j] by {
                if j < d.len() {
                    assert(d.push(ts.last())[i] == d[i] && d.push(ts.last())[j] == d[j]);
                } else {
                    assert(d.push(ts.last())[j] == ts.last());
                    assert(d.push(ts.last())[i] == d[i]);
                    assert(!d.contains(ts.last()));
                    assert(d[i] != ts.last());
                }
            }
        }
        if no_dups(ts) {
            assert forall|i: int, j: int| 0 <= i < j < ts.drop_last().len() implies
                ts.drop_last()[i] != ts.drop_last()[j] by {
                assert(ts.drop_last()[i] == ts[i] && ts.drop_last()[j] == ts[j]);
            }
            assert(spec_dedup(ts.drop_last()) == ts.drop_last());
            if d.contains(ts.last()) {
                let i = choose|i: int| 0 <= i < d.len() && d[i] == ts.last();
                assert(ts[i] == ts[ts.len() - 1]);
                assert(false);
            }
            assert(ts.drop_last().push(ts.last()) =~= ts);
        }
    }
}

/// Membership test over a vector of names.
fn vec_contains_str(v: &Vec<String>, t: &str) -> (r: bool)
    ensures
        r == v.deep_view().contains(t@),
{
    let ghost vv = v.deep_view();
    let mut i: usize = 0;
    while i < v.len()
        invariant
            vv == v.deep_view(),
            vv.len() == v@.len(),
            0 <= i <= vv.len(),
            forall|j: int| 0 <= j < i ==> vv[j] != t@,
        decreases vv.len() - i,
    {
        if str_eq(v[i].as_str(), t) {
            assert(vv[i as int] == t@);
            return true;
        }
        i += 1;
    }
    false
}

/// An environment's setup state: the tricks already applied, oldest first,
/// no name twice.
pub struct EnvState {
    executed_tricks: Vec<String>,
}

impl View for EnvState {
    type V = Seq<Seq<char>>;

    closed spec fn view(&self) -> Seq<Seq<char>> {
        self.executed_tricks.deep_view()
    }
}

impl EnvState {
    /// No trick is recorded twice.
    pub open spec fn wf(&self) -> bool {
        no_dups(self@)
    }

    /// The fresh, empty state.
    pub fn new() -> (r: EnvState)
        ensures
            r@ == Seq::<Seq<char>>::empty(),
            r.wf(),
    {
        let r = EnvState { executed_tricks: Vec::new() };
        proof {
            assert(r@ =~= Seq::<Seq<char>>::empty());
        }
        r
    }

    /// Builds a state from a loaded list, dropping repeated names.
    pub fn from_list(tricks: &Vec<String>) -> (r: EnvState)
        ensures
            r@ == spec_dedup(tricks.deep_view()),
            r.wf(),
    {
        let ghost tv = tricks.deep_view();
        let mut kept: Vec<String> = Vec::new();
        proof {
            assert(tv.take(0) =~= Seq::<Seq<char>>::empty());
            assert(kept.deep_view() =~= spec_dedup(tv.take(0)));
        }
        let mut i: usize = 0;
        while i < tricks.len()
            invariant
                tv == tricks.deep_view(),
                tv.len() == tricks@.len(),
                0 <= i <= tv.len(),
                kept.deep_view() == spec_dedup(tv.take(i as int)),
            decreases tv.len() - i,
        {
            let ghost kv = kept.deep_view();
            proof {
                assert(tv.take(i + 1).drop_last() =~= tv.take(i as int));
                assert(tv.take(i + 1).last() == tv[i as int]);
            }
            if !vec_contains_str(&kept, tricks[i].as_str()) {
                kept.push(tricks[i].clone());
                proof {
                    assert(kept.deep_view() =~= kv.push(tv[i as int]));
                }
            }
            i += 1;
        }
        proof {
            assert(tv.take(tv.len() as int) =~= tv);
            lemma_dedup(tv);
        }
        let r = EnvState { executed_tricks: kept };
        r
    }

    /// The recorded tricks, oldest first.
    pub fn tricks(&self) -> (r: &Vec<String>)
        ensures
            r.deep_view() == self@,
    {
        &self.executed_tricks
    }

    /// Whether `t` has already been applied.
    pub fn contains_trick(&self, t: &str) -> (r: bool)
        ensures
            r == self@.contains(t@),
    {
        vec_contains_str(&self.executed_tricks, t)
    }

    /// Records a successfully applied trick; recording a recorded trick
    /// changes nothing.
    pub fn record_trick(&mut self, t: &String)
        requires
            old(self).wf(),
        ensures
            final(self).wf(),
            old(self)@.contains(t@) ==> final(self)@ == old(self)@,
            !old(self)@.contains(t@) ==> final(self)@ == old(self)@.push(t@),
            final(self)@.contains(t@),
    {
        let ghost oldv = self@;
        if !self.contains_trick(t.as_str()) {
            self.executed_tricks.push(t.clone());
            proof {
                assert(self@ =~= oldv.push(t@));
                assert(self@.last() == t@);
                assert forall|i: int, j: int| 0 <= i < j < self@.len() implies self@[i]
                    != self@[j] by {
                    if j < self@.len() - 1 {
                        assert(self@[i] == oldv[i] && self@[j] == oldv[j]);
                    } else {
                        assert(self@[i] == oldv[i]);
                        assert(!oldv.contains(t@));
                    }
                }
            }
        }
    }

    /// Writes the state as record text.
    pub fn encode(&self) -> (r: String)
        ensures
            r@ == env_state_toml(self@),
    {
        encode_env_state(&self.executed_tricks)
    }
}

/// Reads a state from record text. Reloading what [`EnvState::encode`]
/// wrote restores the same state.
pub fn parse_env_record(s: &str) -> (r: Option<EnvState>)
    ensures
        r matches Some(st) ==> (match env_state_of_toml(s@) {
            Some(ts) => st@ == spec_dedup(ts) && st.wf(),
            None => false,
        }),
        r is None <==> env_state_of_toml(s@) is None,
        s@.len() == 0 ==> (r matches Some(st) && st@ == Seq::<Seq<char>>::empty()),
        forall|ts: Seq<Seq<char>>|
            no_dups(ts) && s@ == env_state_toml(ts) ==> (r matches Some(st) && st@ == ts),
{
    let parsed = match parse_env_state(s) {
        None => {
            return None;
        },
        Some(ts) => ts,
    };
    proof {
        assert forall|ts: Seq<Seq<char>>| no_dups(ts) && s@ == env_state_toml(ts) implies
            spec_dedup(parsed.deep_view()) == ts by {
            lemma_dedup(ts);
        }
    }
    Some(EnvState::from_list(&parsed))
}

/// The tricks that still have to run: the requested names in order, with
/// names already recorded and names requested earlier dropped.
pub open spec fn spec_pending(done: Seq<Seq<char>>, req: Seq<Seq<char>>) -> Seq<Seq<char>>
    decreases req.len(),
{
    if req.len() == 0 {
        Seq::empty()
    } else if done.contains(req[0]) {
        spec_pending(done, req.drop_first())
    } else {
        seq![req[0]] + spec_pending(done.push(req[0]), req.drop_first())
    }
}

/// Computes the pending tricks for a state and a flattened request list.
pub fn pending_tricks(state: &EnvState, requested: &Vec<String>) -> (r: Vec<String>)
    ensures
        r.deep_view() == spec_pending(state@, requested.deep_view()),
{
    let ghost rv = requested.deep_view();
    let mut done = clone_string_vec(state.tricks());
    let mut out: Vec<String> = Vec::new();
    proof {
        assert(rv.skip(0) =~= rv);
        assert(out.deep_view() =~= Seq::<Seq<char>>::empty());
        assert(out.deep_view() + spec_pending(done.deep_view(), rv.skip(0)) =~= spec_pending(
            state@,
            rv,
        ));
    }
    let mut k: usize = 0;
    while k < requested.len()
        invariant
            rv == requested.deep_view(),
            rv.len() == requested@.len(),
            0 <= k <= rv.len(),
            spec_pending(state@, rv) == out.deep_view() + spec_pending(
                done.deep_view(),
                rv.skip(k as int),
            ),
        decreases rv.len() - k,
    {
        let ghost dv = done.deep_view();
        let ghost ov = out.deep_view();
        proof {
            assert(rv.skip(k as int)[0] == rv[k as int]);
            assert(rv.skip(k as int).drop_first() =~= rv.skip(k + 1));
        }
        if !vec_contains_str(&done, requested[k].as_str()) {
            out.push(requested[k].clone());
            done.push(requested[k].clone());
            proof {
                assert(out.deep_view() =~= ov.push(rv[k as int]));
                assert(done.deep_view() =~= dv.push(rv[k as int]));
                assert(ov.push(rv[k as int]) + spec_pending(dv.push(rv[k as int]), rv.skip(k + 1))
                    =~= ov + (seq![rv[k as int]] + spec_pending(
                    dv.push(rv[k as int]),
                    rv.skip(k + 1),
                )));
            }
        }
        k += 1;
    }
    proof {
        assert(rv.skip(rv.len() as int) =~= Seq::<Seq<char>>::empty());
        assert(out.deep_view() + spec_pending(done.deep_view(), rv.skip(rv.len() as int))
            =~= out.deep_view());
    }
    out
}

/// Applies one runner outcome to the state: a success is recorded (the
/// caller persists the state before the next trick), a failure leaves the
/// state as it stood and aborts with the trick's name and status.
pub fn trick_outcome(state: &mut EnvState, trick: &String, success: bool, status: i32) -> (r:
    Result<(), EnvError>)
    requires
        old(state).wf(),
    ensures
        final(state).wf(),
        success ==> r is Ok && final(state)@.contains(trick@),
        success && old(state)@.contains(trick@) ==> final(state)@ == old(state)@,
        success && !old(state)@.contains(trick@) ==> final(state)@ == old(state)@.push(trick@),
        !success ==> final(state)@ == old(state)@ && (r matches Err(e)
            && e matches EnvError::TrickExecution { trick: t, status: st }
            && t@ == trick@ && st == status),
{
    if success {
        state.record_trick(trick);
        Ok(())
    } else {
        Err(EnvError::TrickExecution { trick: trick.clone(), status })
    }
}

/// Trick idempotence: the pending list never schedules an already-recorded
/// trick, and never schedules any name twice — a repeated request is a
/// no-op.
pub proof fn lemma_trick_idempotent(done: Seq<Seq<char>>, req: Seq<Seq<char>>)
    ensures
        no_dups(spec_pending(done, req)),
        forall|i: int|
            0 <= i < spec_pending(done, req).len() ==> !done.contains(
                #[trigger] spec_pending(done, req)[i],
            ),
    decreases req.len(),
{
    if req.len() > 0 {
        let p = spec_pending(done, req);
        if done.contains(req[0]) {
            lemma_trick_idempotent(done, req.drop_first());
        } else {
            let q = spec_pending(done.push(req[0]), req.drop_first());
            lemma_trick_idempotent(done.push(req[0]), req.drop_first());
            assert forall|i: int| 0 <= i < p.len() implies !done.contains(#[trigger] p[i]) by {
                if i == 0 {
                    assert(p[0] == req[0]);
                } else {
                    assert(p[i] == q[i - 1]);
                    assert(!done.push(req[0]).contains(q[i - 1]));
                    if done.contains(q[i - 1]) {
                        let w = choose|w: int| 0 <= w < done.len() && done[w] == q[i - 1];
                        assert(done.push(req[0])[w] == q[i - 1]);
                    }
                }
            }
            assert forall|i: int, j: int| 0 <= i < j < p.len() implies p[i] != p[j] by {
                if i == 0 {
                    assert(p[j] == q[j - 1]);
                    assert(!done.push(req[0]).contains(q[j - 1]));
                    assert(done.push(req[0]).last() == req[0]);
                    if q[j - 1] == req[0] {
                        assert(done.push(req[0]).contains(req[0]));
                    }
                } else {
                    assert(p[i] == q[i - 1] && p[j] == q[j - 1]);
                }
            }
        }
    }
}

/// Trick atomic progress: after the first `k` pending tricks have been
/// recorded, re-requesting the same list leaves exactly the remainder
/// pending — earlier successes are skipped, the failed trick is retried.
pub proof fn lemma_trick_atomic_progress(done: Seq<Seq<char>>, req: Seq<Seq<char>>, k: int)
    requires
        0 <= k <= spec_pending(done, req).len(),
    ensures
        spec_pending(done + spec_pending(done, req).take(k), req) == spec_pending(
            done,
            req,
        ).skip(k),
    decreases req.len(),
{
    let p = spec_pending(done, req);
    if req.len() == 0 {
        assert(done + p.take(0) =~= done);
        assert(p.skip(0) =~= p);
    } else if done.contains(req[0]) {
        lemma_trick_atomic_progress(done, req.drop_first(), k);
        let d2 = done + p.take(k);
        assert(d2.contains(req[0])) by {
            let w = choose|w: int| 0 <= w < done.len() && done[w] == req[0];
            assert(d2[w] == req[0]);
        }
        assert(spec_pending(d2, req) == spec_pending(d2, req.drop_first()));
    } else {
        let q = spec_pending(done.push(req[0]), req.drop_first());
        if k == 0 {
            assert(done + p.take(0) =~= done);
            assert(p.skip(0) =~= p);
        } else {
            lemma_trick_atomic_progress(done.push(req[0]), req.drop_first(), k - 1);
            let d2 = done + p.take(k);
            assert(p.take(k) =~= seq![req[0]] + q.take(k - 1));
            assert(d2 =~= done.push(req[0]) + q.take(k - 1));
            assert(d2.contains(req[0])) by {
                assert(d2[done.len() as int] == req[0]);
            }
            assert(spec_pending(d2, req) == spec_pending(d2, req.drop_first()));
            assert(p.skip(k) =~= q.skip(k - 1));
        }
    }
}

} // verus!
