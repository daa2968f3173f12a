//! What each applicable language server is doing.
//!
//! Membership in the table of states is what makes a server applicable to the
//! checkout. A spawn is claimed by one caller at a time.

use crate::config::ServerId;
use crate::respawn::{BackoffView, RespawnBackoff};
use crate::table;
use crate::table::{Key, KeySet, Table};
use crate::text;
use crate::text::sort_texts;
use vstd::prelude::*;
use vstd::string::*;

verus! {

/// What an applicable language server is doing.
#[derive(Clone, Copy, Debug, PartialEq, Eq, Structural)]
pub enum ServerLifecycle {
    /// Applicable to this checkout, never triggered.
    Idle,
    /// A spawn is in flight.
    Starting,
    /// Registered and alive.
    Running,
    /// The command is not to be found. Remembered, because the same attempt
    /// fails identically every time after.
    NotInstalled,
    /// Spawned and died. Inside the respawn backoff.
    Failed,
    /// Stopped by a user. Nothing starts it but an explicit start.
    Stopped,
}

impl DeepView for ServerLifecycle {
    type V = ServerLifecycle;

    open spec fn deep_view(&self) -> ServerLifecycle {
        *self
    }
}

/// A state as a reader sees it.
pub open spec fn lifecycle_text(state: ServerLifecycle) -> Seq<char> {
    match state {
        ServerLifecycle::Idle => "idle"@,
        ServerLifecycle::Starting => "starting"@,
        ServerLifecycle::Running => "running"@,
        ServerLifecycle::NotInstalled => "not installed"@,
        ServerLifecycle::Failed => "failed"@,
        ServerLifecycle::Stopped => "stopped"@,
    }
}

impl ServerLifecycle {
    /// Every state, in order.
    pub fn all() -> (r: Vec<ServerLifecycle>)
        ensures
            r@ == seq![
                ServerLifecycle::Idle,
                ServerLifecycle::Starting,
                ServerLifecycle::Running,
                ServerLifecycle::NotInstalled,
                ServerLifecycle::Failed,
                ServerLifecycle::Stopped,
            ],
    {
        vec![
            ServerLifecycle::Idle,
            ServerLifecycle::Starting,
            ServerLifecycle::Running,
            ServerLifecycle::NotInstalled,
            ServerLifecycle::Failed,
            ServerLifecycle::Stopped,
        ]
    }

    /// The state as a reader sees it.
    pub fn to_text(&self) -> (r: String)
        ensures
            r@ == lifecycle_text(*self),
    {
        match self {
            ServerLifecycle::Idle => "idle".to_owned(),
            ServerLifecycle::Starting => "starting".to_owned(),
            ServerLifecycle::Running => "running".to_owned(),
            ServerLifecycle::NotInstalled => "not installed".to_owned(),
            ServerLifecycle::Failed => "failed".to_owned(),
            ServerLifecycle::Stopped => "stopped".to_owned(),
        }
    }
}

/// What a [`Translator`] stands for.
#[verifier::ext_equal]
pub struct ServersView {
    /// The state of each applicable server.
    pub states: Map<Seq<char>, ServerLifecycle>,
    /// The servers whose spawn is claimed.
    pub spawning: Set<Seq<char>>,
    /// What is remembered of respawn attempts.
    pub backoffs: Map<Seq<char>, BackoffView>,
}

/// Whether a server is in a state.
pub open spec fn is_in(v: ServersView, id: Seq<char>, state: ServerLifecycle) -> bool {
    v.states.dom().contains(id) && v.states[id] == state
}

/// One state recorded.
pub open spec fn with_state(v: ServersView, id: Seq<char>, state: ServerLifecycle) -> ServersView {
    ServersView { states: v.states.insert(id, state), ..v }
}

/// Whether a spawn of the server can be claimed.
pub open spec fn claimable(v: ServersView, id: Seq<char>) -> bool {
    &&& is_in(v, id, ServerLifecycle::Idle) || is_in(v, id, ServerLifecycle::Failed) || is_in(
        v,
        id,
        ServerLifecycle::Running,
    )
    &&& !v.spawning.contains(id)
}

/// The spawn of a server claimed, where it can be.
pub open spec fn claimed(v: ServersView, id: Seq<char>) -> ServersView {
    if claimable(v, id) {
        ServersView {
            states: v.states.insert(id, ServerLifecycle::Starting),
            spawning: v.spawning.insert(id),
            ..v
        }
    } else {
        v
    }
}

/// A spawn ended with the server it installed, unless a user stopped it.
pub open spec fn finished(v: ServersView, id: Seq<char>, state: ServerLifecycle) -> ServersView {
    if is_in(v, id, ServerLifecycle::Stopped) {
        v
    } else {
        ServersView {
            states: v.states.insert(id, state),
            spawning: v.spawning.remove(id),
            ..v
        }
    }
}

/// A spawn ended without an installed server.
pub open spec fn abandoned(v: ServersView, id: Seq<char>, state: ServerLifecycle) -> ServersView {
    ServersView {
        states: if is_in(v, id, ServerLifecycle::Stopped) {
            v.states
        } else {
            v.states.insert(id, state)
        },
        spawning: v.spawning.remove(id),
        ..v
    }
}

/// The claim of a stopped spawn given up, unless the spawn was adopted.
pub open spec fn released(v: ServersView, id: Seq<char>) -> ServersView {
    if is_in(v, id, ServerLifecycle::Starting) {
        v
    } else {
        ServersView { spawning: v.spawning.remove(id), ..v }
    }
}

/// A server of the startup batch.
pub open spec fn seeded(v: ServersView, id: Seq<char>) -> ServersView {
    ServersView {
        states: v.states.insert(id, ServerLifecycle::Starting),
        spawning: v.spawning.insert(id),
        ..v
    }
}

/// A server made ready for an explicit start.
pub open spec fn reset(v: ServersView, id: Seq<char>) -> ServersView {
    if is_in(v, id, ServerLifecycle::Stopped) && v.spawning.contains(id) {
        with_state(v, id, ServerLifecycle::Starting)
    } else if is_in(v, id, ServerLifecycle::Stopped) || is_in(v, id, ServerLifecycle::NotInstalled)
        || is_in(v, id, ServerLifecycle::Failed) {
        with_state(v, id, ServerLifecycle::Idle)
    } else {
        v
    }
}

/// Rows in the order of their names, each name once.
pub open spec fn in_name_order(rows: Seq<(Seq<char>, ServerLifecycle)>) -> bool {
    forall|i: int, j: int|
        0 <= i < j < rows.len() ==> text::text_leq(
            (#[trigger] rows[i]).0,
            (#[trigger] rows[j]).0,
        ) && rows[i].0 != rows[j].0
}

/// The state of the applicable language servers, who is spawning which, and
/// what is remembered of their crashes.
pub struct Translator {
    pub(crate) lifecycles: Table<ServerId, ServerLifecycle>,
    pub(crate) spawning: KeySet<ServerId>,
    pub(crate) respawn_backoffs: Table<ServerId, RespawnBackoff>,
}

impl View for Translator {
    type V = ServersView;

    open(crate) spec fn view(&self) -> ServersView {
        ServersView {
            states: self.lifecycles@,
            spawning: self.spawning@,
            backoffs: self.respawn_backoffs@,
        }
    }
}

impl Translator {
    /// No applicable server.
    pub fn new() -> (r: Self)
        ensures
            r@ == (ServersView {
                states: Map::empty(),
                spawning: Set::empty(),
                backoffs: Map::empty(),
            }),
    {
        Translator {
            lifecycles: Table::new(),
            spawning: KeySet::new(),
            respawn_backoffs: Table::new(),
        }
    }

    /// Record `state` for `id`.
    pub fn set_lifecycle(&mut self, id: &ServerId, state: ServerLifecycle)
        ensures
            final(self)@ == with_state(old(self)@, id@, state),
    {
        self.lifecycles.put(id.dup(), state);
    }

    /// The state recorded for `id`, or `None` when `id` is not applicable to
    /// this checkout.
    pub fn lifecycle_of(&self, id: &ServerId) -> (r: Option<ServerLifecycle>)
        ensures
            r == (if self@.states.dom().contains(id@) {
                Some(self@.states[id@])
            } else {
                None
            }),
    {
        match self.lifecycles.get(id) {
            Some(state) => Some(*state),
            None => None,
        }
    }

    /// Claim the right to spawn `id`, moving it to `Starting`.
    ///
    /// `Running` remains claimable because process death is discovered by the
    /// caller before a fresh attempt is published.
    pub fn begin_starting(&mut self, id: &ServerId) -> (r: bool)
        ensures
            r == claimable(old(self)@, id@),
            final(self)@ == claimed(old(self)@, id@),
    {
        match self.lifecycle_of(id) {
            Some(ServerLifecycle::Idle) | Some(ServerLifecycle::Failed) | Some(
                ServerLifecycle::Running,
            ) => {},
            _ => {
                return false;
            },
        }
        if self.spawning.has(id) {
            return false;
        }
        self.spawning.add(id.dup());
        self.set_lifecycle(id, ServerLifecycle::Starting);
        true
    }

    /// End `id`'s spawn with the server it installed, recording `state`.
    ///
    /// Returns false, leaving the spawn claimed, when a user stopped `id`
    /// meanwhile: the caller retires what it installed, then calls
    /// [`Self::release_stopped_spawn`].
    pub fn finish_spawn(&mut self, id: &ServerId, state: ServerLifecycle) -> (r: bool)
        ensures
            r == !is_in(old(self)@, id@, ServerLifecycle::Stopped),
            final(self)@ == finished(old(self)@, id@, state),
    {
        if let Some(ServerLifecycle::Stopped) = self.lifecycle_of(id) {
            return false;
        }
        self.spawning.remove(id);
        self.set_lifecycle(id, state);
        true
    }

    /// End `id`'s spawn without an installed server, recording `state` unless
    /// a user stopped it meanwhile.
    pub fn abandon_spawn(&mut self, id: &ServerId, state: ServerLifecycle)
        ensures
            final(self)@ == abandoned(old(self)@, id@, state),
    {
        self.spawning.remove(id);
        match self.lifecycle_of(id) {
            Some(ServerLifecycle::Stopped) => {},
            _ => self.set_lifecycle(id, state),
        }
    }

    /// Give up the claim a stopped spawn kept while it retired its server.
    /// Returns true, keeping the claim, when an explicit start adopted the
    /// spawn meanwhile and the caller must spawn again.
    pub fn release_stopped_spawn(&mut self, id: &ServerId) -> (r: bool)
        ensures
            r == is_in(old(self)@, id@, ServerLifecycle::Starting),
            final(self)@ == released(old(self)@, id@),
    {
        if let Some(ServerLifecycle::Starting) = self.lifecycle_of(id) {
            return true;
        }
        self.spawning.remove(id);
        false
    }

    /// Mark an eagerly spawned `id` as starting, with the spawn claimed by the
    /// startup batch.
    pub fn seed_starting(&mut self, id: &ServerId)
        ensures
            final(self)@ == seeded(old(self)@, id@),
    {
        self.spawning.add(id.dup());
        self.set_lifecycle(id, ServerLifecycle::Starting);
    }

    /// Prepare `id` for an explicit start. A stopped server whose spawn is
    /// still in flight goes back to `Starting` and keeps that spawn, so two
    /// processes never race to install. Otherwise a stopped, missing, or failed
    /// server returns to `Idle` for a fresh claim.
    pub fn reset_for_explicit_start(&mut self, id: &ServerId)
        ensures
            final(self)@ == reset(old(self)@, id@),
    {
        match self.lifecycle_of(id) {
            Some(ServerLifecycle::Stopped) => {
                if self.spawning.has(id) {
                    self.set_lifecycle(id, ServerLifecycle::Starting);
                } else {
                    self.set_lifecycle(id, ServerLifecycle::Idle);
                }
            },
            Some(ServerLifecycle::NotInstalled) | Some(ServerLifecycle::Failed) => {
                self.set_lifecycle(id, ServerLifecycle::Idle);
            },
            _ => {},
        }
    }

    /// Every applicable server and its state, ordered by identity so a reader
    /// sees the same line twice in a row.
    pub fn lifecycles(&self) -> (r: Vec<(ServerId, ServerLifecycle)>)
        ensures
            in_name_order(r.deep_view()),
            table::rows_map(r.deep_view()) == self@.states,
    {
        let n: usize = self.lifecycles.len();
        let ghost rows = self.lifecycles.rows();
        let ghost states = self@.states;
        let mut names: Vec<String> = Vec::new();
        let mut i: usize = 0;
        while i < n
            invariant
                i <= n,
                n == rows.len(),
                rows == self.lifecycles.rows(),
                names.len() == i,
                forall|j: int| 0 <= j < i ==> #[trigger] names.deep_view()[j] == rows[j].0,
            decreases n - i,
        {
            let ghost before = names.deep_view();
            let name = self.lifecycles.key_at(i).name.clone();
            let ghost word = name@;
            names.push(name);
            i = i + 1;
            assert(names.deep_view() =~= before.push(word));
        }
        let ghost listed = names.deep_view();
        let sorted = sort_texts(names);
        proof {
            lemma_sorted_names(listed, rows);
            table::lemma_rows_map(rows);
        }
        let ghost ordered = sorted.deep_view();
        let mut r: Vec<(ServerId, ServerLifecycle)> = Vec::new();
        let mut k: usize = 0;
        while k < sorted.len()
            invariant
                k <= sorted.len(),
                ordered == sorted.deep_view(),
                states == self@.states,
                forall|j: int|
                    0 <= j < ordered.len() ==> states.dom().contains(#[trigger] ordered[j]),
                r.len() == k,
                forall|j: int|
                    0 <= j < k ==> #[trigger] r.deep_view()[j] == (ordered[j], states[ordered[j]]),
            decreases sorted.len() - k,
        {
            let id = ServerId { name: sorted[k].clone() };
            let ghost word = id@;
            let ghost before = r.deep_view();
            assert(word == ordered[k as int]);
            if let Some(state) = self.lifecycle_of(&id) {
                r.push((id, state));
                assert(r.deep_view() =~= before.push((word, states[word])));
            }
            k = k + 1;
        }
        proof {
            lemma_listed_states(r.deep_view(), ordered, states);
        }
        r
    }
}

proof fn lemma_sorted_names(
    listed: Seq<Seq<char>>,
    rows: Seq<(Seq<char>, ServerLifecycle)>,
)
    requires
        listed.len() == rows.len(),
        forall|j: int| 0 <= j < rows.len() ==> #[trigger] listed[j] == rows[j].0,
        table::distinct_rows(rows),
    ensures
        ({
            let ordered = listed.sort_by(text::text_order());
            &&& ordered.len() == rows.len()
            &&& ordered.no_duplicates()
            &&& forall|i: int, j: int|
                0 <= i < j < ordered.len() ==> text::text_leq(
                    #[trigger] ordered[i],
                    #[trigger] ordered[j],
                )
            &&& forall|j: int|
                0 <= j < ordered.len() ==> table::rows_map(rows).dom().contains(
                    #[trigger] ordered[j],
                )
            &&& forall|s: Seq<char>| #[trigger]
                table::rows_map(rows).dom().contains(s) ==> ordered.contains(s)
        }),
{
    let order = text::text_order();
    let ordered = listed.sort_by(order);
    text::lemma_text_order();
    listed.lemma_sort_by_ensures(order);
    table::lemma_rows_map(rows);
    listed.to_multiset_ensures();
    ordered.to_multiset_ensures();
    assert(ordered.to_multiset().len() == listed.to_multiset().len());
    assert(listed.no_duplicates()) by {
        assert forall|i: int, j: int| 0 <= i < listed.len() && 0 <= j < listed.len() && i
            != j implies listed[i] != listed[j] by {
            if i < j {
                assert(rows[i].0 != rows[j].0);
            } else {
                assert(rows[j].0 != rows[i].0);
            }
        }
    }
    listed.lemma_multiset_has_no_duplicates();
    assert forall|x: Seq<char>| ordered.to_multiset().contains(x) implies ordered.to_multiset().count(
        x,
    ) == 1 by {
        assert(listed.to_multiset().contains(x));
    }
    ordered.lemma_multiset_has_no_duplicates_conv();
    assert forall|i: int, j: int| 0 <= i < j < ordered.len() implies text::text_leq(
        #[trigger] ordered[i],
        #[trigger] ordered[j],
    ) by {
        assert(order(ordered[i], ordered[j]));
    }
    assert forall|j: int| 0 <= j < ordered.len() implies table::rows_map(rows).dom().contains(
        #[trigger] ordered[j],
    ) by {
        assert(ordered.contains(ordered[j]));
        assert(ordered.to_multiset().count(ordered[j]) > 0);
        assert(listed.contains(ordered[j]));
        let i = choose|i: int| 0 <= i < listed.len() && listed[i] == ordered[j];
        assert(table::rows_map(rows).dom().contains(rows[i].0));
    }
    assert forall|s: Seq<char>| #[trigger]
        table::rows_map(rows).dom().contains(s) implies ordered.contains(s) by {
        let i = table::row_of(rows, s);
        assert(listed[i] == s);
        assert(listed.contains(s));
        assert(listed.to_multiset().count(s) > 0);
        assert(ordered.to_multiset().count(s) > 0);
    }
}

proof fn lemma_listed_states(
    r: Seq<(Seq<char>, ServerLifecycle)>,
    ordered: Seq<Seq<char>>,
    states: Map<Seq<char>, ServerLifecycle>,
)
    requires
        r.len() == ordered.len(),
        ordered.no_duplicates(),
        forall|i: int, j: int|
            0 <= i < j < ordered.len() ==> text::text_leq(
                #[trigger] ordered[i],
                #[trigger] ordered[j],
            ),
        forall|j: int| 0 <= j < ordered.len() ==> states.dom().contains(#[trigger] ordered[j]),
        forall|s: Seq<char>| #[trigger] states.dom().contains(s) ==> ordered.contains(s),
        forall|j: int|
            0 <= j < ordered.len() ==> #[trigger] r[j] == (ordered[j], states[ordered[j]]),
    ensures
        in_name_order(r),
        table::rows_map(r) == states,
{
    assert forall|i: int, j: int| 0 <= i < j < r.len() implies text::text_leq(
        (#[trigger] r[i]).0,
        (#[trigger] r[j]).0,
    ) && r[i].0 != r[j].0 by {
        assert(text::text_leq(ordered[i], ordered[j]));
    }
    assert(table::distinct_rows(r));
    table::lemma_rows_map(r);
    let m = table::rows_map(r);
    assert forall|s: Seq<char>| m.dom().contains(s) <==> states.dom().contains(s) by {
        if m.dom().contains(s) {
            let i = table::row_of(r, s);
            assert(r[i].0 == ordered[i]);
        }
        if states.dom().contains(s) {
            let i = choose|i: int| 0 <= i < ordered.len() && ordered[i] == s;
            assert(r[i].0 == s);
            assert(m.dom().contains(r[i].0));
        }
    }
    assert(m.dom() =~= states.dom());
    assert forall|s: Seq<char>| m.dom().contains(s) implies m[s] == states[s] by {
        let i = table::row_of(r, s);
        assert(r[i].0 == ordered[i]);
    }
    assert(m =~= states);
}

/// A spawn that was claimed cannot be claimed again before it has ended:
/// only one caller spawns a server.
pub proof fn law_one_spawn_at_a_time(v: ServersView, id: Seq<char>)
    requires
        claimable(v, id),
    ensures
        !claimable(claimed(v, id), id),
        is_in(claimed(v, id), id, ServerLifecycle::Starting),
        forall|state: ServerLifecycle|
            !#[trigger] claimable(with_state(claimed(v, id), id, state), id),
{
}

/// Nothing claims a server that is stopped, missing or not applicable.
pub proof fn law_a_stopped_server_is_not_claimed(v: ServersView, id: Seq<char>)
    requires
        is_in(v, id, ServerLifecycle::Stopped) || is_in(v, id, ServerLifecycle::NotInstalled)
            || !v.states.dom().contains(id),
    ensures
        !claimable(v, id),
        claimed(v, id) == v,
{
}

/// A user's stop outlasts whatever the spawn in flight comes to; only an
/// explicit start undoes it.
pub proof fn law_a_stop_outlasts_the_spawn(v: ServersView, id: Seq<char>, state: ServerLifecycle)
    requires
        is_in(v, id, ServerLifecycle::Stopped),
    ensures
        is_in(finished(v, id, state), id, ServerLifecycle::Stopped),
        is_in(abandoned(v, id, state), id, ServerLifecycle::Stopped),
        is_in(released(v, id), id, ServerLifecycle::Stopped),
        is_in(claimed(v, id), id, ServerLifecycle::Stopped),
        !is_in(reset(v, id), id, ServerLifecycle::Stopped),
{
}

/// A start that comes while a stopped spawn is still in flight adopts that
/// spawn: no second one can be claimed, and the spawn's outcome counts again.
pub proof fn law_a_start_adopts_the_spawn_in_flight(
    v: ServersView,
    id: Seq<char>,
    state: ServerLifecycle,
)
    requires
        is_in(v, id, ServerLifecycle::Stopped),
        v.spawning.contains(id),
    ensures
        is_in(reset(v, id), id, ServerLifecycle::Starting),
        !claimable(reset(v, id), id),
        released(reset(v, id), id) == reset(v, id),
        is_in(finished(reset(v, id), id, state), id, state),
        !finished(reset(v, id), id, state).spawning.contains(id),
{
}

/// An abandoned spawn frees its claim, and after a stop an explicit start makes
/// the server claimable again.
pub proof fn law_an_abandoned_spawn_can_be_claimed_again(
    v: ServersView,
    id: Seq<char>,
    state: ServerLifecycle,
)
    ensures
        !abandoned(v, id, state).spawning.contains(id),
        is_in(v, id, ServerLifecycle::Stopped) ==> claimable(
            reset(abandoned(v, id, state), id),
            id,
        ),
{
}

/// What concerns one server leaves every other server as it was.
pub proof fn law_servers_are_independent(
    v: ServersView,
    id: Seq<char>,
    state: ServerLifecycle,
    other: Seq<char>,
)
    requires
        other != id,
    ensures
        claimable(claimed(v, id), other) == claimable(v, other),
        claimable(finished(v, id, state), other) == claimable(v, other),
        claimable(abandoned(v, id, state), other) == claimable(v, other),
        claimable(released(v, id), other) == claimable(v, other),
        claimable(reset(v, id), other) == claimable(v, other),
        claimable(seeded(v, id), other) == claimable(v, other),
{
}

} // verus!
