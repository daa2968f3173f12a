//! What bringing servers up to date, attaching to a backend, subscribing and
//! running file-system steps promise, beyond their own modules.

use crate::clock::{Duration, Instant};
use crate::config::{DiagnosticsConfig, LspServerConfig};
use crate::control::ContactView;
use crate::edits::ApplySummary;
use crate::error::Error;
use crate::floors;
use crate::frontend;
use crate::frontend::{ActionView, EventView, PlaceView, StateView, Timing};
use crate::handshake::{HandshakeView, RefusalView, ReplyView};
use crate::inbound;
use crate::inbound::{InboundNextView, WindowAction, WindowEvent, WindowState};
use crate::journal;
use crate::journal::{RunView, StepView as FileStep};
use crate::plan;
use crate::plan::WorkspaceEdit;
use crate::resources;
use crate::resources::{SubscriberView, UriErrorView};
use crate::resync;
use crate::resync::{
    DrainView, NextView, OpenOutcome, Presence, Reread, SaveResult, SavesView, SeenView, SendView,
    StepView, WatchKind,
};
use crate::stub;
use crate::stub::StubView;
use crate::uris;
use vstd::prelude::*;
use vstd::string::*;

verus! {

/// A server's floor is the last one that was set under its identity, and the
/// common one where none was. Its identity is its name, or its language without
/// one.
pub proof fn law_the_last_floor_set_counts(
    config: DiagnosticsConfig,
    servers: Seq<LspServerConfig>,
    more: LspServerConfig,
    server: Seq<char>,
)
    ensures
        floors::floor_of(config, Seq::empty(), server) == config.severity,
        floors::floor_of(config, servers.push(more), server) == (if more.diagnostics_severity
            is Some && server == (match more.name {
            Some(name) => name@,
            None => more.language_id@,
        }) {
            more.diagnostics_severity->Some_0
        } else {
            floors::floor_of(config, servers, server)
        }),
{
    assert(servers.push(more).drop_last() =~= servers);
}

/// Without a route nothing is added to the servers that hold a path; each of
/// them is brought up to date, at its own process.
pub proof fn law_every_holder_is_synced(servers: Seq<(Seq<char>, u64)>)
    ensures
        resync::servers_to_sync(servers, None) == servers,
{
}

/// A change goes to exactly the servers that lack it, in their order and each at
/// its own process.
pub proof fn law_who_lacks_a_change(
    servers: Seq<(Seq<char>, u64)>,
    more: (Seq<char>, u64),
    needs: Seq<Seq<char>>,
)
    ensures
        resync::lacking(Seq::empty(), needs).len() == 0,
        needs.contains(more.0) ==> resync::lacking(servers.push(more), needs) == resync::lacking(
            servers,
            needs,
        ).push(more),
        !needs.contains(more.0) ==> resync::lacking(servers.push(more), needs) == resync::lacking(
            servers,
            needs,
        ),
{
    reveal(Seq::filter);
    assert(servers.push(more).drop_last() =~= servers);
}

/// The changes go out one after the other, as long as each is sent. One that is
/// not ends it; once all are sent everyone has the change.
pub proof fn law_changes_go_out_in_order(
    servers: Seq<(Seq<char>, u64)>,
    needs: Seq<Seq<char>>,
    results: Seq<bool>,
)
    ensures
        (exists|i: int| 0 <= i < results.len() && !(#[trigger] results[i])) <==> resync::send_next(
            servers,
            needs,
            results,
        ) is Broken,
        resync::send_next(servers, needs, results) matches SendView::Change(server, process) ==> {
            &&& results.len() < resync::lacking(servers, needs).len()
            &&& resync::lacking(servers, needs)[results.len() as int] == (server, process)
        },
        resync::send_next(servers, needs, results) is AllSent ==> results.len()
            >= resync::lacking(servers, needs).len(),
{
    if results.contains(false) {
        let i = choose|i: int| 0 <= i < results.len() && results[i] == false;
        assert(!results[i]);
    }
    if exists|i: int| 0 <= i < results.len() && !(#[trigger] results[i]) {
        let i = choose|i: int| 0 <= i < results.len() && !(#[trigger] results[i]);
        assert(results[i] == false);
        assert(results.contains(false));
    }
}

/// Of the servers that have a path's content, those that are live are reached,
/// in their order.
pub proof fn law_who_is_reachable(
    synced: Seq<Seq<char>>,
    more: Seq<char>,
    live: Seq<Seq<char>>,
)
    ensures
        resync::reachable(Seq::empty(), live).len() == 0,
        live.contains(more) ==> resync::reachable(synced.push(more), live) == resync::reachable(
            synced,
            live,
        ).push(more),
        !live.contains(more) ==> resync::reachable(synced.push(more), live) == resync::reachable(
            synced,
            live,
        ),
{
    reveal(Seq::filter);
    assert(synced.push(more).drop_last() =~= synced);
}

/// The saves of a path are sent one server after the other, each at its process,
/// until one of them is not known of: a stale one puts the path off, and one
/// that could not be sent stops the drain.
pub proof fn law_saves_go_out_in_order(
    servers: Seq<(Seq<char>, u64)>,
    results: Seq<SaveResult>,
    last: SaveResult,
)
    requires
        forall|i: int| 0 <= i < results.len() ==> #[trigger] results[i] == SaveResult::Known,
    ensures
        results.len() < servers.len() ==> resync::saves_next(servers, results) == SavesView::Tell(
            servers[results.len() as int].0,
            servers[results.len() as int].1,
        ),
        results.len() >= servers.len() ==> resync::saves_next(servers, results) == (
        SavesView::Finish { watch: Some(WatchKind::Changed), step: StepView::Done }),
        last == SaveResult::Stale ==> resync::saves_next(servers, results.push(last)) == (
        SavesView::Finish { watch: None, step: StepView::Deferred }),
        last == SaveResult::NotSent ==> resync::saves_next(servers, results.push(last)) == (
        SavesView::Finish { watch: None, step: StepView::NotifyFailed }),
{
    resync::law_saved_means_every_server_knows(results);
    lemma_first_unknown(results, last);
}

proof fn lemma_first_unknown(results: Seq<SaveResult>, last: SaveResult)
    requires
        forall|i: int| 0 <= i < results.len() ==> #[trigger] results[i] == SaveResult::Known,
    ensures
        last == SaveResult::Stale ==> resync::saves_step(results.push(last)) is Deferred,
        last == SaveResult::NotSent ==> resync::saves_step(results.push(last)) is NotifyFailed,
    decreases results.len(),
{
    let all = results.push(last);
    if results.len() > 0 {
        let rest = results.drop_first();
        assert forall|i: int| 0 <= i < rest.len() implies #[trigger] rest[i] == SaveResult::Known by {
            assert(results[i + 1] == SaveResult::Known);
        }
        lemma_first_unknown(rest, last);
        assert(all.drop_first() =~= rest.push(last));
        assert(all[0] == results[0]);
    } else {
        assert(all[0] == last);
    }
}

/// A path whose file is there is opened where its server does not have it yet,
/// read again under its lock, and its change sent to every server that holds it;
/// then its saves are owed, for the version and the processes it was sent to.
pub proof fn law_how_a_path_is_brought_up_to_date(
    routed: bool,
    synced: bool,
    servers: Seq<(Seq<char>, u64)>,
    to: Option<(Seq<char>, u64)>,
    version: i32,
)
    ensures
        resync::resync_next(
            SeenView::Routed { routed, synced, presence: Presence::Present },
        ) is Open <==> !routed || !synced,
        routed && synced ==> resync::resync_next(
            SeenView::Routed { routed, synced, presence: Presence::Present },
        ) is Lock,
        resync::resync_next(
            SeenView::Routed { routed, synced, presence: Presence::Absent },
        ) is Lock,
        resync::resync_next(
            SeenView::Opened { outcome: OpenOutcome::Opened, held: true },
        ) is Lock,
        resync::resync_next(SeenView::Locked { presence: Presence::Present }) is Reread,
        resync::resync_next(SeenView::Reread(Reread::Refreshed)) is ListServers,
        resync::servers_to_sync(servers, to).len() > 0 ==> resync::resync_next(
            SeenView::Held { servers: Some(servers), routed: to },
        ) == NextView::Send(resync::servers_to_sync(servers, to)),
        resync::resync_next(SeenView::Sent { ok: true, version, servers }) == (NextView::Finish {
            close: false,
            watch: None,
            step: StepView::NeedsSave { version, servers },
        }),
        resync::resync_next(SeenView::Sent { ok: false, version, servers }) == (NextView::Finish {
            close: false,
            watch: None,
            step: StepView::NotifyFailed,
        }),
{
}

/// A path that is gone is closed and its watchers are told that it was deleted;
/// one that no server tracks is done, and its watchers are told of the change;
/// one of which nothing can be told for now stays queued, and nobody is told.
pub proof fn law_how_a_path_ends_early(held: bool)
    ensures
        resync::resync_next(SeenView::Locked { presence: Presence::Absent }) == (NextView::Finish {
            close: true,
            watch: Some(WatchKind::Deleted),
            step: StepView::Done,
        }),
        resync::resync_next(SeenView::Locked { presence: Presence::Unknown }) == (
        NextView::Finish { close: false, watch: None, step: StepView::Deferred }),
        resync::resync_next(SeenView::Reread(Reread::Untracked)) == (NextView::Finish {
            close: false,
            watch: Some(WatchKind::Changed),
            step: StepView::Done,
        }),
        resync::resync_next(SeenView::Reread(Reread::Failed)) == (NextView::Finish {
            close: false,
            watch: None,
            step: StepView::Deferred,
        }),
        resync::resync_next(
            SeenView::Opened { outcome: OpenOutcome::NoRoute, held: false },
        ) == (NextView::Finish {
            close: false,
            watch: Some(WatchKind::Changed),
            step: StepView::Done,
        }),
        resync::resync_next(
            SeenView::Opened { outcome: OpenOutcome::NoRoute, held: true },
        ) is Lock,
        resync::resync_next(
            SeenView::Opened { outcome: OpenOutcome::NoHeadroom, held },
        ) == (NextView::Finish {
            close: false,
            watch: Some(WatchKind::Changed),
            step: StepView::Deferred,
        }),
        resync::resync_next(SeenView::Opened { outcome: OpenOutcome::Failed, held }) == (
        NextView::Finish {
            close: false,
            watch: Some(WatchKind::Changed),
            step: StepView::Deferred,
        }),
{
}

/// A path whose saves are done leaves the queue, and no other does; the save
/// after it is the next.
pub proof fn law_a_saved_path_leaves_the_queue(d: DrainView, path: Seq<char>)
    requires
        d.saves.len() > 0,
    ensures
        resync::drained_save(d, StepView::Done).remaining.contains(path) <==> d.remaining.contains(
            path,
        ) && path != d.saves[0].path,
        resync::drained_save(d, StepView::Done).saves == d.saves.drop_first(),
        resync::drained_save(d, StepView::Deferred).saves == d.saves.drop_first(),
        resync::drained_save(d, StepView::NotifyFailed).stopped,
{
    lemma_other_paths(d.remaining, d.saves[0].path, path);
}

proof fn lemma_other_paths(paths: Seq<Seq<char>>, gone: Seq<char>, path: Seq<char>)
    ensures
        resync::other_paths(paths, gone).contains(path) <==> paths.contains(path) && path != gone,
    decreases paths.len(),
{
    reveal(Seq::filter);
    let left = resync::other_paths(paths, gone);
    if paths.len() > 0 {
        let less = paths.drop_last();
        let last = paths.last();
        lemma_other_paths(less, gone, path);
        assert(paths =~= less.push(last));
        crate::table::lemma_push_contains(less, last, path);
        if last != gone {
            assert(left == resync::other_paths(less, gone).push(last));
            crate::table::lemma_push_contains(resync::other_paths(less, gone), last, path);
        }
    } else {
        assert(left.len() == 0);
    }
}

/// What each path comes to is done to that path: one that is done goes, one that
/// is put off is passed over, and one whose saves are owed is passed over with
/// its save behind those of the others.
pub proof fn law_each_path_comes_to_its_own_step(
    d: DrainView,
    version: i32,
    servers: Seq<(Seq<char>, u64)>,
)
    requires
        d.index < d.remaining.len(),
        !d.stopped,
    ensures
        resync::drain_next(d) == resync::DrainNextView::Sync(d.remaining[d.index as int]),
        resync::drained(d, StepView::Done).remaining == d.remaining.remove(d.index as int),
        resync::drained(d, StepView::Done).index == d.index,
        resync::drained(d, StepView::Deferred).index == d.index + 1,
        resync::drained(d, StepView::Deferred).saves == d.saves,
        ({
            let after = resync::drained(d, StepView::NeedsSave { version, servers });
            &&& after.index == d.index + 1
            &&& after.saves.len() == d.saves.len() + 1
            &&& d.saves.is_prefix_of(after.saves)
            &&& after.saves.last().path == d.remaining[d.index as int]
            &&& after.saves.last().version == version
            &&& after.saves.last().servers == servers
        }),
{
    let after = resync::drained(d, StepView::NeedsSave { version, servers });
    assert(d.saves =~= after.saves.take(d.saves.len() as int));
}

/// An edit that a server sends back is written as a whole plan, and the server
/// is told yes exactly where that was done; one that cannot be planned or
/// written is answered no.
pub proof fn law_a_server_is_told_whether_it_was_written(
    edit: WorkspaceEdit,
    summary: ApplySummary,
    e: Error,
)
    ensures
        plan::plan_of(edit) is Err ==> inbound::inbound_next(edit, None) == InboundNextView::Answer(
            false,
        ),
        plan::plan_of(edit) matches Ok(ops) ==> inbound::inbound_next(edit, None)
            == InboundNextView::Apply(ops),
        plan::plan_of(edit) is Ok ==> inbound::inbound_next(
            edit,
            Some(Ok::<ApplySummary, Error>(summary)),
        ) == InboundNextView::Answer(true),
        inbound::inbound_next(edit, Some(Err::<ApplySummary, Error>(e)))
            == InboundNextView::Answer(false),
{
}

/// An edit that waits is looked at before the answer to the command, and the
/// answer before the news that no edit can come any more.
pub proof fn law_what_is_looked_at_first(edit_waits: bool, can_arrive: bool, answered: bool)
    ensures
        inbound::seen_first(edit_waits, can_arrive, answered) == WindowEvent::Edit <==> edit_waits,
        inbound::seen_first(edit_waits, can_arrive, answered) == WindowEvent::Answered
            <==> !edit_waits && answered,
        inbound::seen_first(edit_waits, can_arrive, answered) == WindowEvent::SinkGone
            <==> !edit_waits && !answered && !can_arrive,
{
}

/// A window writes an edit exactly while it is open or draining, and refuses it
/// otherwise. It drains once the command is answered, and closes for good when
/// nothing is left to come.
pub proof fn law_when_a_window_writes(state: WindowState)
    ensures
        inbound::window_step(state, WindowEvent::Edit).1 == WindowAction::Apply <==> state
            == WindowState::Open || state == WindowState::Draining,
        inbound::window_step(state, WindowEvent::Edit).1 == WindowAction::Refuse <==> state
            == WindowState::Waiting || state == WindowState::Closed,
        inbound::window_step(state, WindowEvent::Edit).0 == state,
        state == WindowState::Open || state == WindowState::Waiting ==> inbound::window_step(
            state,
            WindowEvent::Answered,
        ).0 == WindowState::Draining,
        state == WindowState::Draining ==> inbound::window_step(state, WindowEvent::Idle).0
            == WindowState::Closed,
        state == WindowState::Open ==> inbound::window_step(state, WindowEvent::Idle).0 == state,
{
}

/// An attempt to attach goes by what came of its contact: a reply is an answer,
/// a connection that could not be made or stays silent means a busy endpoint,
/// and anything else means that nothing is there.
pub proof fn law_what_a_contact_means(contact: ContactView, reply: ReplyView)
    ensures
        frontend::event_of(contact) == EventView::Answered(reply) <==> contact
            == ContactView::Replied(reply),
        frontend::event_of(contact) is Busy <==> contact is TimedOut || contact is Unanswered,
        frontend::event_of(contact) is Absent <==> contact is Refused || contact is WriteFailed
            || contact is NoReply,
{
}

/// An attempt that is refused is over, unless it may evict: then an idle backend
/// of an older build is asked to exit, whatever else refuses it.
pub proof fn law_what_a_refusal_leads_to(
    place: PlaceView,
    request: HandshakeView,
    reply: ReplyView,
    may_evict: bool,
)
    requires
        reply.refusal is Some,
    ensures
        frontend::judged(place, request, reply, may_evict).1 is SendShutdown <==> may_evict
            && reply.refusal == Some(RefusalView::Build) && frontend::is_newer(request, reply)
            && reply.sessions == 0,
        !(frontend::judged(place, request, reply, may_evict).1 is SendShutdown)
            ==> frontend::judged(place, request, reply, may_evict) == (
            StateView::Over,
            ActionView::Failed(frontend::refused_text(place, request, reply)),
        ),
{
}

/// A started backend has the whole time to answer, from when it was spawned: it
/// is asked again after each pause, and only when the time is up the attempt
/// fails.
pub proof fn law_a_started_backend_has_its_time(
    place: PlaceView,
    request: HandshakeView,
    timing: Timing,
    deadline: int,
    now: Instant,
)
    ensures
        frontend::attach_step(
            place,
            request,
            timing,
            StateView::Starting,
            EventView::Spawned,
            now,
        ) == (StateView::Polling { deadline: now + timing.start }, ActionView::Handshake),
        now < deadline ==> frontend::attach_step(
            place,
            request,
            timing,
            StateView::Polling { deadline },
            EventView::Absent,
            now,
        ) == (StateView::Polling { deadline }, ActionView::Pause),
        now >= deadline ==> frontend::attach_step(
            place,
            request,
            timing,
            StateView::Polling { deadline },
            EventView::Absent,
            now,
        ).1 is Failed,
        frontend::attach_step(
            place,
            request,
            timing,
            StateView::Polling { deadline },
            EventView::Resumed,
            now,
        ) == (StateView::Polling { deadline }, ActionView::Handshake),
{
}

/// A backend that was asked to exit has its whole time to leave. Once it is
/// gone the attempt goes on to the lock; where it refuses, stays busy or is
/// still there in the end, the attempt fails.
pub proof fn law_an_evicted_backend_has_its_time(
    place: PlaceView,
    request: HandshakeView,
    timing: Timing,
    reply: ReplyView,
    answer: ReplyView,
    deadline: int,
    now: Instant,
)
    ensures
        answer.refusal is None && timing.gone > 0 ==> frontend::attach_step(
            place,
            request,
            timing,
            StateView::Evicting { reply },
            EventView::Answered(answer),
            now,
        ) == (StateView::Leaving { reply, deadline: now + timing.gone }, ActionView::Probe),
        answer.refusal is Some ==> frontend::attach_step(
            place,
            request,
            timing,
            StateView::Evicting { reply },
            EventView::Answered(answer),
            now,
        ).1 is Failed,
        frontend::attach_step(
            place,
            request,
            timing,
            StateView::Leaving { reply, deadline },
            EventView::Absent,
            now,
        ) == (StateView::Locking, ActionView::Lock(timing.start)),
        now < deadline ==> frontend::attach_step(
            place,
            request,
            timing,
            StateView::Leaving { reply, deadline },
            EventView::Resumed,
            now,
        ) == (StateView::Leaving { reply, deadline }, ActionView::Probe),
        now >= deadline ==> frontend::attach_step(
            place,
            request,
            timing,
            StateView::Leaving { reply, deadline },
            EventView::Resumed,
            now,
        ).1 is Failed,
{
}

/// The lock is waited for as long as a start may take, the endpoint is looked at
/// again under it, and a start that was left to another waits with it.
pub proof fn law_what_happens_under_the_lock(
    place: PlaceView,
    request: HandshakeView,
    timing: Timing,
    now: Instant,
)
    ensures
        frontend::attach_step(
            place,
            request,
            timing,
            StateView::Knocking,
            EventView::Absent,
            now,
        ) == (StateView::Locking, ActionView::Lock(timing.start)),
        frontend::attach_step(
            place,
            request,
            timing,
            StateView::Locking,
            EventView::Locked,
            now,
        ) == (StateView::KnockingLocked, ActionView::Handshake),
        frontend::attach_step(
            place,
            request,
            timing,
            StateView::Locking,
            EventView::LockTimedOut,
            now,
        ).1 is Failed,
        frontend::attach_step(
            place,
            request,
            timing,
            StateView::Starting,
            EventView::Requested,
            now,
        ) == (StateView::Over, ActionView::Waiting(frontend::waiting_text(place))),
        frontend::attach_step(
            place,
            request,
            timing,
            StateView::Knocking,
            EventView::Busy,
            now,
        ).1 is Failed,
        frontend::attach_step(
            place,
            request,
            timing,
            StateView::KnockingLocked,
            EventView::Busy,
            now,
        ).1 is Failed,
{
}

/// Whole seconds are told, and no more of them than have passed.
pub proof fn law_whole_seconds_are_told(d: Duration)
    ensures
        frontend::seconds(d) * 1_000_000_000 <= d,
        d < (frontend::seconds(d) + 1) * 1_000_000_000,
{
}

/// A connection may subscribe to what it is subscribed to already at any time,
/// and to something new as long as it is below its limit. It is told whether
/// that was new. What it had before it keeps, and it is notified through the
/// handle it gave last.
pub proof fn law_what_subscribing_comes_to(
    v: Map<u64, SubscriberView>,
    connection: u64,
    peer: u64,
    uri: Seq<char>,
    other: Seq<char>,
)
    ensures
        ({
            let held = resources::subscribed(v, connection);
            let (after, outcome) = resources::with_subscription(v, connection, peer, uri);
            &&& outcome is Err <==> !held.contains(uri) && held.len() >= resources::MAX_SUBSCRIPTIONS
            &&& outcome matches Ok(new) ==> new == !held.contains(uri)
            &&& outcome is Ok ==> resources::subscribed(after, connection).contains(uri)
            &&& other != uri ==> (resources::subscribed(after, connection).contains(other)
                <==> held.contains(other))
            &&& outcome is Err ==> !resources::subscribed(after, connection).contains(uri)
            &&& after[connection].peer == peer
        }),
{
}

/// Unsubscribing takes away that one subscription, keeps the others and the
/// handle, and forgets the connection only where nothing is left.
pub proof fn law_what_unsubscribing_comes_to(
    v: Map<u64, SubscriberView>,
    connection: u64,
    uri: Seq<char>,
    other: Seq<char>,
)
    ensures
        ({
            let held = resources::subscribed(v, connection);
            let after = resources::without_subscription(v, connection, uri);
            &&& !resources::subscribed(after, connection).contains(uri)
            &&& other != uri ==> (resources::subscribed(after, connection).contains(other)
                <==> held.contains(other))
            &&& after.dom().contains(connection) ==> after[connection].peer == v[connection].peer
            &&& other != uri && held.contains(other) ==> after.dom().contains(connection)
        }),
{
    if v.dom().contains(connection) {
        let left = v[connection].uris.remove(uri);
        if left == Set::<Seq<char>>::empty() {
            assert(!left.contains(other));
        }
    }
}

/// A resource URI without an authority names what the `file` URI with the same
/// path names, and what is no such URI has no path: the scheme is what tells
/// them apart.
pub proof fn law_only_resource_uris_have_a_path(path: Seq<char>, uri: Seq<char>)
    requires
        path.len() > 0,
        path[0] == '/',
    ensures
        resources::file_uri_of("lsp-diagnostics://"@ + path) == Ok::<Seq<char>, UriErrorView>(
            "file://"@ + path,
        ),
        resources::file_uri_of(uri) matches Ok(file) ==> exists|rest: Seq<char>|
            uri == "lsp-diagnostics://"@ + rest && file == #[trigger] ("file://"@ + rest)
                && rest.len() > 0 && rest[0] == '/',
        resources::file_uri_of(uri) matches Err(e) ==> e is InvalidScheme,
        resources::path_of(uri) is Ok ==> resources::file_uri_of(uri) is Ok,
{
    reveal_strlit("/");
    let prefix = "lsp-diagnostics://"@;
    let n = prefix.len() as int;
    let whole = prefix + path;
    assert(prefix =~= whole.take(n));
    assert(prefix.is_prefix_of(whole));
    assert(whole.skip(n) =~= path);
    assert("/"@ =~= path.take(1));
    assert("/"@.is_prefix_of(path));
    if resources::file_uri_of(uri) is Ok {
        let rest = uri.skip(n);
        assert(uri =~= prefix + rest);
        assert(rest.subrange(0, 1)[0] == '/');
        assert(resources::file_uri_of(uri)->Ok_0 == "file://"@ + rest);
    }
}

/// Whether a character is one of the four that are escaped.
pub open spec fn odd(c: char) -> bool {
    c == '[' || c == ']' || c == '^' || c == '|'
}

/// Of an escaped text no odd character is left, a text without any is kept as it
/// is, and texts are escaped piece by piece.
pub proof fn law_escaping_leaves_nothing_odd(a: Seq<char>, b: Seq<char>)
    ensures
        forall|i: int|
            0 <= i < uris::escaped(a).len() ==> !odd(#[trigger] uris::escaped(a)[i]),
        (forall|i: int| 0 <= i < a.len() ==> !odd(#[trigger] a[i])) ==> uris::escaped(a) == a,
        uris::escaped(a + b) == uris::escaped(a) + uris::escaped(b),
{
    lemma_escaped(a);
    lemma_escaped_pieces(a, b);
}

proof fn lemma_escaped(a: Seq<char>)
    ensures
        forall|i: int|
            0 <= i < uris::escaped(a).len() ==> !odd(#[trigger] uris::escaped(a)[i]),
        (forall|i: int| 0 <= i < a.len() ==> !odd(#[trigger] a[i])) ==> uris::escaped(a) == a,
    decreases a.len(),
{
    reveal_strlit("%5B");
    reveal_strlit("%5D");
    reveal_strlit("%5E");
    reveal_strlit("%7C");
    if a.len() > 0 {
        let less = a.drop_last();
        lemma_escaped(less);
        let head = uris::escaped(less);
        let tail = uris::escape(a.last());
        let all = uris::escaped(a);
        assert forall|i: int| 0 <= i < all.len() implies !odd(#[trigger] all[i]) by {
            if i < head.len() {
                assert(all[i] == head[i]);
            } else {
                assert(all[i] == tail[i - head.len()]);
            }
        }
        if forall|i: int| 0 <= i < a.len() ==> !odd(#[trigger] a[i]) {
            assert forall|i: int| 0 <= i < less.len() implies !odd(#[trigger] less[i]) by {
                assert(less[i] == a[i]);
            }
            assert(!odd(a[a.len() - 1]));
            assert(all =~= a);
        }
    }
}

proof fn lemma_escaped_pieces(a: Seq<char>, b: Seq<char>)
    ensures
        uris::escaped(a + b) == uris::escaped(a) + uris::escaped(b),
    decreases b.len(),
{
    if b.len() == 0 {
        assert(a + b =~= a);
        assert(uris::escaped(a) + uris::escaped(b) =~= uris::escaped(a));
    } else {
        lemma_escaped_pieces(a, b.drop_last());
        assert((a + b).drop_last() =~= a + b.drop_last());
        assert((a + b).last() == b.last());
        let x = uris::escaped(a);
        let y = uris::escaped(b.drop_last());
        let z = uris::escape(b.last());
        assert(x + y + z =~= x + (y + z));
    }
}

/// A session with no backend is answered so that it can go on: it is told why at
/// the start and wherever it asks for more than lists, and every list but that
/// of the tools is empty.
pub proof fn law_a_session_without_a_backend_is_told_why(
    method: Seq<char>,
    protocol: Option<Seq<char>>,
    instructions: Seq<char>,
    reason: Seq<char>,
)
    ensures
        stub::stub_answer(method, protocol, instructions, reason) matches StubView::ToolFailed(why)
            ==> why == reason && method == "tools/call"@,
        stub::stub_answer(method, protocol, instructions, reason) matches StubView::Error(why)
            ==> why == reason,
        stub::stub_answer(method, protocol, instructions, reason) matches StubView::Initialize {
            protocol_version,
            instructions: told,
        } ==> {
            &&& method == "initialize"@
            &&& protocol matches Some(p) ==> protocol_version == p
            &&& instructions.is_prefix_of(told)
            &&& told.skip(told.len() - reason.len()) == reason
        },
        method == "initialize"@ ==> stub::stub_answer(method, protocol, instructions, reason)
            is Initialize,
{
    if method == "initialize"@ {
        let told = instructions + " "@ + reason;
        assert(instructions =~= told.take(instructions.len() as int));
        assert(told.skip(told.len() - reason.len()) =~= reason);
    }
}

/// A session without a backend is answered by method: it is set up, pinged and
/// listed nothing, and every other method is refused, a call of a tool as a tool
/// that failed.
pub proof fn law_a_session_without_a_backend_is_answered_by_method(
    method: Seq<char>,
    protocol: Option<Seq<char>>,
    instructions: Seq<char>,
    reason: Seq<char>,
)
    ensures
        ({
            let answer = stub::stub_answer(method, protocol, instructions, reason);
            &&& answer is Initialize <==> method == "initialize"@
            &&& answer is Empty <==> method == "ping"@
            &&& answer is Tools <==> method == "tools/list"@
            &&& answer is Resources <==> method == "resources/list"@
            &&& answer is ResourceTemplates <==> method == "resources/templates/list"@
            &&& answer is ToolFailed <==> method == "tools/call"@
        }),
{
    reveal_strlit("initialize");
    reveal_strlit("ping");
    reveal_strlit("tools/list");
    reveal_strlit("resources/list");
    reveal_strlit("resources/templates/list");
    reveal_strlit("tools/call");
    assert("initialize"@.len() == 10 && "initialize"@[0] == 'i');
    assert("ping"@.len() == 4);
    assert("tools/list"@.len() == 10 && "tools/list"@[0] == 't' && "tools/list"@[6] == 'l');
    assert("resources/list"@.len() == 14);
    assert("resources/templates/list"@.len() == 24);
    assert("tools/call"@.len() == 10 && "tools/call"@[0] == 't' && "tools/call"@[6] == 'c');
}

/// What lies in the trash after a run is what its steps parked there, each once
/// and in their order.
pub proof fn law_everything_parked_is_removed(steps: Seq<FileStep>, more: FileStep)
    ensures
        journal::trash_of(Seq::empty()).len() == 0,
        more matches FileStep::Trash { trash, .. } ==> journal::trash_of(steps.push(more))
            == journal::trash_of(steps).push(trash),
        !(more is Trash) ==> journal::trash_of(steps.push(more)) == journal::trash_of(steps),
{
    assert(steps.push(more).drop_last() =~= steps);
}

/// A run performs its steps one after the other as long as each succeeds, and
/// removes the trash once all have. A failed run gives the words of the step
/// that failed.
pub proof fn law_how_a_run_goes(
    steps: Seq<FileStep>,
    performed: Seq<journal::ReplyView>,
    e: Seq<char>,
)
    requires
        forall|i: int| 0 <= i < performed.len() ==> #[trigger] performed[i] is Done,
        performed.len() <= steps.len(),
    ensures
        performed.len() < steps.len() ==> journal::run_next(steps, performed, Seq::empty())
            == RunView::Perform(performed.len() as int),
        performed.len() == steps.len() ==> journal::run_next(steps, performed, Seq::empty())
            is Purge,
        performed.len() == 0 && steps.len() > 0 ==> (journal::run_next(
            steps,
            performed.push(journal::ReplyView::Failed(e)),
            Seq::empty(),
        ) matches RunView::Failed(crate::error::ErrorView::ApplyPartiallyFailed { reason, .. })
            && reason == e),
        0 < performed.len() < steps.len() ==> journal::run_next(
            steps,
            performed.push(journal::ReplyView::Failed(e)),
            Seq::empty(),
        ) == RunView::Reverse(performed.len() - 1),
{
    if performed.len() > 0 {
        assert(performed.last() == performed[performed.len() - 1]);
    }
}

/// A file that could not be put back is told where it is: a rewritten one as
/// still written, a moved one with both its places. One that was put back is
/// told under the place it came from.
pub proof fn law_where_a_rolled_back_file_is(
    r: journal::Rollback,
    path: Seq<char>,
    to: Seq<char>,
    step: FileStep,
    e: Seq<char>,
)
    ensures
        step matches FileStep::Write { path: p, .. } ==> {
            &&& journal::rollback_step(r, step, journal::ReplyView::Done).restored
                == r.restored.push(p)
            &&& journal::rollback_step(r, step, journal::ReplyView::Failed(e)).written
                == r.written.push(p)
        },
        ({
            let moved = FileStep::Move { from: path, to };
            &&& journal::rollback_step(r, moved, journal::ReplyView::Done).restored
                == r.restored.push(path)
            &&& journal::rollback_step(r, moved, journal::ReplyView::Failed(e)).unrecovered
                == r.unrecovered.push(path + " is at "@ + to + " ("@ + e + ")"@)
        }),
        ({
            let parked = FileStep::Trash { path, trash: to };
            &&& journal::rollback_step(r, parked, journal::ReplyView::Done).restored
                == r.restored.push(path)
            &&& journal::rollback_step(r, parked, journal::ReplyView::Failed(e)).unrecovered
                == r.unrecovered.push(path + " is at "@ + to + " ("@ + e + ")"@)
        }),
{
}

} // verus!
