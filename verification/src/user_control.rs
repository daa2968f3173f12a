//! Lifecycle changes a user asks for: stop, start, and restart.

use crate::config::ServerId;
use crate::lifecycle;
use crate::lifecycle::{ServerLifecycle, ServersView, Translator};
use crate::respawn;
use crate::table;
use crate::table::Key;
use vstd::prelude::*;
use vstd::string::*;

verus! {

/// A lifecycle change requested by a user.
#[derive(Clone, Copy, Debug, PartialEq, Eq, Structural)]
pub enum LspAction {
    /// Spawn a server that is not running.
    Start,
    /// Shut a server down and keep it down until an explicit start.
    Stop,
    /// Replace a running server's process, or start one that is not running.
    Restart,
}

/// Texts with `between` between them.
pub open spec fn joined(texts: Seq<Seq<char>>, between: Seq<char>) -> Seq<char>
    decreases texts.len(),
{
    if texts.len() == 0 {
        Seq::empty()
    } else if texts.len() == 1 {
        texts[0]
    } else {
        joined(texts.drop_last(), between) + between + texts.last()
    }
}

/// The names of rows.
pub open spec fn names(rows: Seq<(Seq<char>, ServerLifecycle)>) -> Seq<Seq<char>> {
    rows.map_values(|row: (Seq<char>, ServerLifecycle)| row.0)
}

/// The names that stand in `targets` and not in `applicable`.
pub open spec fn unknown_among(
    targets: Seq<Seq<char>>,
    applicable: Seq<Seq<char>>,
) -> Seq<Seq<char>> {
    targets.filter(|name: Seq<char>| !applicable.contains(name))
}

/// Why an action is refused that names servers that do not apply.
pub open spec fn unknown_text(unknown: Seq<Seq<char>>, applicable: Seq<Seq<char>>) -> Seq<char> {
    "no language server named "@ + joined(unknown, ", "@) + " applies here; "@ + if applicable.len()
        == 0 {
        "none do"@
    } else {
        "these do: "@ + joined(applicable, ", "@)
    }
}

/// The servers that an action is for: those requested, or all that apply.
pub open spec fn targets_of(
    requested: Seq<Seq<char>>,
    applicable: Seq<Seq<char>>,
) -> Result<Seq<Seq<char>>, Seq<char>> {
    let targets = if requested.len() == 0 {
        applicable
    } else {
        requested
    };
    let unknown = unknown_among(targets, applicable);
    if unknown.len() > 0 {
        Err(unknown_text(unknown, applicable))
    } else {
        Ok(targets)
    }
}

/// Join texts.
pub fn join(texts: &Vec<String>, between: &str) -> (r: String)
    ensures
        r@ == joined(texts.deep_view(), between@),
{
    let ghost all = texts.deep_view();
    if texts.len() == 0 {
        let r = String::new();
        assert(r@ =~= Seq::<char>::empty());
        return r;
    }
    let mut r = texts[0].clone();
    let mut i: usize = 1;
    assert(all.take(1).len() == 1 && all.take(1)[0] == all[0]);
    while i < texts.len()
        invariant
            1 <= i <= texts.len(),
            all == texts.deep_view(),
            r@ == joined(all.take(i as int), between@),
        decreases texts.len() - i,
    {
        r.append(between);
        r.append(texts[i].as_str());
        i = i + 1;
        proof {
            let next = all.take(i as int);
            assert(next.drop_last() =~= all.take(i - 1));
            assert(next.last() == all[i - 1]);
        }
    }
    assert(all.take(i as int) =~= all);
    r
}

fn listed(texts: &Vec<String>, name: &String) -> (r: bool)
    ensures
        r == texts.deep_view().contains(name@),
{
    let ghost all = texts.deep_view();
    let mut i: usize = 0;
    while i < texts.len()
        invariant
            i <= texts.len(),
            all == texts.deep_view(),
            forall|j: int| 0 <= j < i ==> #[trigger] all[j] != name@,
        decreases texts.len() - i,
    {
        assert(all[i as int] == texts[i as int]@);
        if texts[i] == *name {
            return true;
        }
        i = i + 1;
    }
    false
}

fn unlisted(targets: &Vec<String>, applicable: &Vec<String>) -> (r: Vec<String>)
    ensures
        r.deep_view() == unknown_among(targets.deep_view(), applicable.deep_view()),
{
    let ghost all = targets.deep_view();
    let ghost known = applicable.deep_view();
    let mut r: Vec<String> = Vec::new();
    let mut i: usize = 0;
    proof {
        reveal(Seq::filter);
        assert(all.take(0) =~= Seq::<Seq<char>>::empty());
        assert(r.deep_view() =~= Seq::<Seq<char>>::empty());
    }
    while i < targets.len()
        invariant
            i <= targets.len(),
            all == targets.deep_view(),
            known == applicable.deep_view(),
            r.deep_view() == unknown_among(all.take(i as int), known),
        decreases targets.len() - i,
    {
        let ghost before = r.deep_view();
        proof {
            let next = all.take(i + 1);
            assert(next.drop_last() =~= all.take(i as int));
            assert(next.last() == all[i as int]);
            reveal(Seq::filter);
        }
        if !listed(applicable, &targets[i]) {
            r.push(targets[i].clone());
            assert(r.deep_view() =~= before.push(all[i as int]));
        }
        i = i + 1;
    }
    assert(all.take(i as int) =~= all);
    r
}

/// The servers that an action is for, given those that apply: those requested,
/// or all. Names the requested ones that do not apply.
pub fn targets(requested: Vec<String>, applicable: Vec<String>) -> (r: Result<Vec<String>, String>)
    ensures
        match r {
            Ok(list) => targets_of(requested.deep_view(), applicable.deep_view()) == Ok::<
                Seq<Seq<char>>,
                Seq<char>,
            >(list.deep_view()),
            Err(e) => targets_of(requested.deep_view(), applicable.deep_view()) == Err::<
                Seq<Seq<char>>,
                Seq<char>,
            >(e@),
        },
{
    let unknown = if requested.len() == 0 {
        unlisted(&applicable, &applicable)
    } else {
        unlisted(&requested, &applicable)
    };
    if unknown.len() > 0 {
        let mut m = "no language server named ".to_owned();
        m.append(join(&unknown, ", ").as_str());
        m.append(" applies here; ");
        if applicable.len() == 0 {
            m.append("none do");
        } else {
            let mut known = "these do: ".to_owned();
            known.append(join(&applicable, ", ").as_str());
            m.append(known.as_str());
        }
        return Err(m);
    }
    if requested.len() == 0 {
        Ok(applicable)
    } else {
        Ok(requested)
    }
}

/// What a restart does.
#[derive(Clone, Copy, Debug, PartialEq, Eq, Structural)]
pub enum RestartNext {
    /// Start the server: no process of it is live.
    Start,
    /// Spawn its replacement.
    Spawn,
    /// Nothing: another spawn is in flight, or none can be made.
    Nothing,
}

/// A server made ready for an explicit start, its crashes forgotten.
pub open spec fn readied(v: ServersView, id: Seq<char>) -> ServersView {
    respawn::without_backoff(lifecycle::reset(v, id), id)
}

/// What a restart does, given whether a process is live and whether one can be
/// spawned. A replacement that cannot be spawned leaves the server failed, and
/// its spawn claimed.
pub open spec fn restarted(v: ServersView, id: Seq<char>, live: bool, can_spawn: bool) -> (
    ServersView,
    RestartNext,
) {
    if !live {
        (readied(v, id), RestartNext::Start)
    } else {
        let w = respawn::without_backoff(v, id);
        if !lifecycle::claimable(w, id) {
            (w, RestartNext::Nothing)
        } else if can_spawn {
            (lifecycle::claimed(w, id), RestartNext::Spawn)
        } else {
            (
                lifecycle::with_state(lifecycle::claimed(w, id), id, ServerLifecycle::Failed),
                RestartNext::Nothing,
            )
        }
    }
}

impl Translator {
    /// The names of the applicable servers, in order.
    pub fn applicable(&self) -> (r: Vec<String>)
        ensures
            exists|rows: Seq<(Seq<char>, ServerLifecycle)>|
                lifecycle::in_name_order(rows) && table::rows_map(rows) == self@.states
                    && #[trigger] names(rows) == r.deep_view(),
    {
        let states = self.lifecycles();
        let ghost rows = states.deep_view();
        let mut r: Vec<String> = Vec::new();
        let mut i: usize = 0;
        while i < states.len()
            invariant
                i <= states.len(),
                rows == states.deep_view(),
                r.deep_view() == names(rows).take(i as int),
            decreases states.len() - i,
        {
            let ghost before = r.deep_view();
            r.push(states[i].0.name.clone());
            i = i + 1;
            assert(r.deep_view() =~= before.push(rows[i - 1].0));
            assert(names(rows).take(i as int) =~= before.push(names(rows)[i - 1]));
        }
        assert(names(rows).take(i as int) =~= names(rows));
        r
    }

    /// Mark `id` stopped; its process is then shut down.
    pub fn stop_server(&mut self, id: &ServerId)
        ensures
            final(self)@ == lifecycle::with_state(old(self)@, id@, ServerLifecycle::Stopped),
    {
        self.set_lifecycle(id, ServerLifecycle::Stopped);
    }

    /// Make `id` ready for an explicit start. Retries a server recorded as not
    /// installed, since an explicit start usually follows installing it.
    pub fn start_server(&mut self, id: &ServerId)
        ensures
            final(self)@ == readied(old(self)@, id@),
    {
        self.reset_for_explicit_start(id);
        self.clear_respawn_backoff(id);
    }

    /// Begin to replace `id`'s live process with a fresh one, or to start it
    /// when none is live.
    pub fn restart_server(&mut self, id: &ServerId, live: bool, can_spawn: bool) -> (r: RestartNext)
        ensures
            (final(self)@, r) == restarted(old(self)@, id@, live, can_spawn),
    {
        if !live {
            self.start_server(id);
            return RestartNext::Start;
        }
        self.clear_respawn_backoff(id);
        if !self.begin_starting(id) {
            return RestartNext::Nothing;
        }
        if can_spawn {
            RestartNext::Spawn
        } else {
            self.set_lifecycle(id, ServerLifecycle::Failed);
            RestartNext::Nothing
        }
    }

    /// The state of each target that applies, in order.
    pub fn states_of(&self, targets: &Vec<String>) -> (r: Vec<(String, ServerLifecycle)>)
        ensures
            r.deep_view() == states_among(targets.deep_view(), self@),
    {
        let ghost all = targets.deep_view();
        let mut r: Vec<(String, ServerLifecycle)> = Vec::new();
        let mut i: usize = 0;
        assert(r.deep_view() =~= Seq::<(Seq<char>, ServerLifecycle)>::empty());
        while i < targets.len()
            invariant
                i <= targets.len(),
                all == targets.deep_view(),
                r.deep_view() == states_among(all.take(i as int), self@),
            decreases targets.len() - i,
        {
            let ghost before = r.deep_view();
            proof {
                let next = all.take(i + 1);
                assert(next.drop_last() =~= all.take(i as int));
                assert(next.last() == all[i as int]);
            }
            let id = ServerId { name: targets[i].clone() };
            if let Some(state) = self.lifecycle_of(&id) {
                r.push((targets[i].clone(), state));
                assert(r.deep_view() =~= before.push((all[i as int], state)));
            }
            i = i + 1;
        }
        assert(all.take(i as int) =~= all);
        r
    }
}

/// The state of each target that applies, in order.
pub open spec fn states_among(targets: Seq<Seq<char>>, v: ServersView) -> Seq<
    (Seq<char>, ServerLifecycle),
>
    decreases targets.len(),
{
    if targets.len() == 0 {
        Seq::empty()
    } else {
        let before = states_among(targets.drop_last(), v);
        if v.states.dom().contains(targets.last()) {
            before.push((targets.last(), v.states[targets.last()]))
        } else {
            before
        }
    }
}

/// An explicit start makes every server claimable that is not running or being
/// spawned already, whatever it crashed of before.
pub proof fn law_an_explicit_start_unblocks_a_server(v: ServersView, id: Seq<char>)
    requires
        v.states.dom().contains(id),
        !v.spawning.contains(id),
        !lifecycle::is_in(v, id, ServerLifecycle::Starting),
    ensures
        lifecycle::claimable(readied(v, id), id),
        !readied(v, id).backoffs.dom().contains(id),
{
}

/// Without a request an action is for every server that applies, and is never
/// refused.
pub proof fn law_an_action_without_names_is_for_all(applicable: Seq<Seq<char>>)
    ensures
        targets_of(Seq::empty(), applicable) == Ok::<Seq<Seq<char>>, Seq<char>>(applicable),
{
    lemma_all_known(applicable, applicable);
}

proof fn lemma_all_known(targets: Seq<Seq<char>>, applicable: Seq<Seq<char>>)
    requires
        forall|i: int| 0 <= i < targets.len() ==> applicable.contains(#[trigger] targets[i]),
    ensures
        unknown_among(targets, applicable).len() == 0,
    decreases targets.len(),
{
    reveal(Seq::filter);
    if targets.len() > 0 {
        let less = targets.drop_last();
        assert forall|i: int| 0 <= i < less.len() implies applicable.contains(#[trigger] less[i]) by {
            assert(less[i] == targets[i]);
        }
        lemma_all_known(less, applicable);
        assert(applicable.contains(targets[targets.len() - 1]));
    }
}

} // verus!
