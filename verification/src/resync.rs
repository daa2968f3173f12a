//! Bringing the servers up to date with files that were written behind their
//! backs: what each path still needs, and which paths stay queued.

use crate::config::ServerId;
use crate::table;
use crate::table::Key;
use vstd::prelude::*;
use vstd::string::*;

verus! {

/// Whether something is at a path.
#[derive(Clone, Copy, Debug, PartialEq, Eq, Structural)]
pub enum Presence {
    /// It is there.
    Present,
    /// It is not.
    Absent,
    /// That cannot be told.
    Unknown,
}

/// What opening a path achieved.
///
/// The three ways of not opening one are kept apart because a caller reports
/// them differently.
#[derive(Clone, Copy, Debug, PartialEq, Eq, Structural)]
pub enum OpenOutcome {
    /// The document is tracked and its server was told.
    Opened,
    /// Nothing routes this path's language, and nothing ever will while the
    /// current configuration stands.
    NoRoute,
    /// A server routes it and the caller had no room for another document.
    NoHeadroom,
    /// A server routes it, but the file was not opened.
    Failed,
}

/// Where a path is routed to.
#[derive(Clone, Copy, Debug, PartialEq, Eq, Structural)]
pub enum Route {
    /// To a server that is there.
    Found,
    /// To a server that is still starting.
    Initializing,
    /// Nowhere.
    Nowhere,
}

/// What is decided of opening a path before anything is read.
pub open spec fn opening(route: Route, has_headroom: bool) -> Option<OpenOutcome> {
    match route {
        Route::Initializing => Some(OpenOutcome::Failed),
        Route::Nowhere => Some(OpenOutcome::NoRoute),
        Route::Found => if has_headroom {
            None
        } else {
            Some(OpenOutcome::NoHeadroom)
        },
    }
}

/// A path is opened exactly where a server is there for it and there is room.
/// Only a path that has a server is told that there is none, and only one that
/// nothing routes is given up for good.
pub proof fn law_when_a_path_is_opened(route: Route, has_headroom: bool)
    ensures
        opening(route, has_headroom) is None <==> route == Route::Found && has_headroom,
        opening(route, has_headroom) == Some(OpenOutcome::NoHeadroom) <==> route == Route::Found
            && !has_headroom,
        opening(route, has_headroom) == Some(OpenOutcome::NoRoute) <==> route == Route::Nowhere,
{
}

/// What is decided of opening a path before anything is read: routing first, so
/// that a path nothing routes is never reported against the document limit it
/// was not competing for. `None` to go ahead and open it.
pub fn open_untracked_document(route: Route, has_headroom: bool) -> (r: Option<OpenOutcome>)
    ensures
        r == (match route {
            Route::Initializing => Some(OpenOutcome::Failed),
            Route::Nowhere => Some(OpenOutcome::NoRoute),
            Route::Found => if has_headroom {
                None
            } else {
                Some(OpenOutcome::NoHeadroom)
            },
        }),
        r == opening(route, has_headroom),
{
    match route {
        Route::Initializing => Some(OpenOutcome::Failed),
        Route::Nowhere => Some(OpenOutcome::NoRoute),
        Route::Found => {
            if has_headroom {
                None
            } else {
                Some(OpenOutcome::NoHeadroom)
            }
        },
    }
}

/// What happened to a watched file.
#[derive(Clone, Copy, Debug, PartialEq, Eq, Structural)]
pub enum WatchKind {
    /// It was created.
    Created,
    /// It was changed.
    Changed,
    /// It was deleted.
    Deleted,
}

impl DeepView for WatchKind {
    type V = WatchKind;

    open spec fn deep_view(&self) -> WatchKind {
        *self
    }
}

/// Whether a server is among those told.
pub open spec fn is_told(told: Seq<(Seq<char>, WatchKind)>, server: Seq<char>) -> bool {
    table::has_row(told, server)
}

/// Those of one kind that were not told yet are told.
pub open spec fn tell_kind(
    told: Seq<(Seq<char>, WatchKind)>,
    kind: WatchKind,
    servers: Seq<Seq<char>>,
) -> Seq<(Seq<char>, WatchKind)>
    decreases servers.len(),
{
    if servers.len() == 0 {
        told
    } else {
        let before = tell_kind(told, kind, servers.drop_last());
        if is_told(before, servers.last()) {
            before
        } else {
            before.push((servers.last(), kind))
        }
    }
}

/// Who is told what of a change, given which servers watch for each kind, most
/// preferred first: each server once, under the first kind it accepts.
pub open spec fn notices(watchers: Seq<(WatchKind, Seq<Seq<char>>)>) -> Seq<(Seq<char>, WatchKind)>
    decreases watchers.len(),
{
    if watchers.len() == 0 {
        Seq::empty()
    } else {
        tell_kind(notices(watchers.drop_last()), watchers.last().0, watchers.last().1)
    }
}

fn told_before(told: &Vec<(ServerId, WatchKind)>, server: &ServerId) -> (r: bool)
    ensures
        r == is_told(told.deep_view(), server@),
{
    let ghost all = told.deep_view();
    let mut i: usize = 0;
    while i < told.len()
        invariant
            i <= told.len(),
            all == told.deep_view(),
            forall|j: int| 0 <= j < i ==> (#[trigger] all[j]).0 != server@,
        decreases told.len() - i,
    {
        assert(all[i as int].0 == told[i as int].0@);
        if told[i].0.same(server) {
            return true;
        }
        i = i + 1;
    }
    false
}

/// Who is told what of a changed file.
pub fn notify_watched_files(watchers: &Vec<(WatchKind, Vec<ServerId>)>) -> (r: Vec<
    (ServerId, WatchKind),
>)
    ensures
        r.deep_view() == notices(watchers.deep_view()),
{
    let ghost all = watchers.deep_view();
    let mut told: Vec<(ServerId, WatchKind)> = Vec::new();
    let mut i: usize = 0;
    assert(told.deep_view() =~= Seq::<(Seq<char>, WatchKind)>::empty());
    while i < watchers.len()
        invariant
            i <= watchers.len(),
            all == watchers.deep_view(),
            told.deep_view() == notices(all.take(i as int)),
        decreases watchers.len() - i,
    {
        let ghost start = told.deep_view();
        let ghost servers = all[i as int].1;
        let kind = watchers[i].0;
        let list = &watchers[i].1;
        proof {
            let next = all.take(i + 1);
            assert(next.drop_last() =~= all.take(i as int));
            assert(next.last() == all[i as int]);
            assert(servers =~= list.deep_view());
        }
        let mut j: usize = 0;
        while j < list.len()
            invariant
                j <= list.len(),
                servers == list.deep_view(),
                told.deep_view() == tell_kind(start, kind, servers.take(j as int)),
            decreases list.len() - j,
        {
            let ghost before = told.deep_view();
            proof {
                let next = servers.take(j + 1);
                assert(next.drop_last() =~= servers.take(j as int));
                assert(next.last() == servers[j as int]);
            }
            if !told_before(&told, &list[j]) {
                told.push((list[j].dup(), kind));
                assert(told.deep_view() =~= before.push((servers[j as int], kind)));
            }
            j = j + 1;
        }
        assert(servers.take(j as int) =~= servers);
        i = i + 1;
    }
    assert(all.take(i as int) =~= all);
    told
}

proof fn lemma_tell_kind(
    told: Seq<(Seq<char>, WatchKind)>,
    kind: WatchKind,
    servers: Seq<Seq<char>>,
    server: Seq<char>,
)
    requires
        table::distinct_rows(told),
    ensures
        table::distinct_rows(tell_kind(told, kind, servers)),
        is_told(tell_kind(told, kind, servers), server) <==> is_told(told, server)
            || servers.contains(server),
        is_told(told, server) ==> table::rows_map(tell_kind(told, kind, servers))[server]
            == table::rows_map(told)[server],
        !is_told(told, server) && servers.contains(server) ==> table::rows_map(
            tell_kind(told, kind, servers),
        )[server] == kind,
    decreases servers.len(),
{
    if servers.len() > 0 {
        let less = servers.drop_last();
        let last = servers.last();
        lemma_tell_kind(told, kind, less, server);
        lemma_tell_kind(told, kind, less, last);
        let before = tell_kind(told, kind, less);
        assert(servers =~= less.push(last));
        table::lemma_push_contains(less, last, server);
        if !is_told(before, last) {
            let after = before.push((last, kind));
            assert(table::put_row(before, last, kind) == after);
            table::lemma_put_row(before, last, kind);
            table::lemma_rows_map(before);
            table::lemma_rows_map(after);
            assert(table::rows_map(after).dom().contains(server) <==> is_told(after, server));
            assert(table::rows_map(before).dom().contains(server) <==> is_told(before, server));
        }
    }
}

/// Every server that watches for any of the kinds is told exactly once, and
/// under the first kind that it watches for.
pub proof fn law_each_watcher_is_told_once(
    watchers: Seq<(WatchKind, Seq<Seq<char>>)>,
    server: Seq<char>,
    first: int,
)
    requires
        0 <= first < watchers.len(),
        watchers[first].1.contains(server),
        forall|i: int| 0 <= i < first ==> !(#[trigger] watchers[i]).1.contains(server),
    ensures
        table::distinct_rows(notices(watchers)),
        is_told(notices(watchers), server),
        table::rows_map(notices(watchers))[server] == watchers[first].0,
    decreases watchers.len(),
{
    let less = watchers.drop_last();
    lemma_notices_distinct(less);
    lemma_tell_kind(notices(less), watchers.last().0, watchers.last().1, server);
    if first < less.len() {
        assert forall|i: int| 0 <= i < first implies !(#[trigger] less[i]).1.contains(server) by {
            assert(less[i] == watchers[i]);
        }
        law_each_watcher_is_told_once(less, server, first);
    } else {
        lemma_not_watching(less, server);
    }
}

/// A server that watches for none of the kinds is told nothing.
pub proof fn law_nobody_else_is_told(
    watchers: Seq<(WatchKind, Seq<Seq<char>>)>,
    server: Seq<char>,
)
    requires
        forall|i: int| 0 <= i < watchers.len() ==> !(#[trigger] watchers[i]).1.contains(server),
    ensures
        !is_told(notices(watchers), server),
{
    lemma_not_watching(watchers, server);
}

proof fn lemma_notices_distinct(watchers: Seq<(WatchKind, Seq<Seq<char>>)>)
    ensures
        table::distinct_rows(notices(watchers)),
    decreases watchers.len(),
{
    if watchers.len() > 0 {
        lemma_notices_distinct(watchers.drop_last());
        lemma_tell_kind(
            notices(watchers.drop_last()),
            watchers.last().0,
            watchers.last().1,
            Seq::empty(),
        );
    }
}

proof fn lemma_not_watching(watchers: Seq<(WatchKind, Seq<Seq<char>>)>, server: Seq<char>)
    requires
        forall|i: int| 0 <= i < watchers.len() ==> !(#[trigger] watchers[i]).1.contains(server),
    ensures
        !is_told(notices(watchers), server),
    decreases watchers.len(),
{
    if watchers.len() > 0 {
        let less = watchers.drop_last();
        assert forall|i: int| 0 <= i < less.len() implies !(#[trigger] less[i]).1.contains(
            server,
        ) by {
            assert(less[i] == watchers[i]);
        }
        lemma_not_watching(less, server);
        lemma_notices_distinct(less);
        lemma_tell_kind(notices(less), watchers.last().0, watchers.last().1, server);
        assert(!watchers[watchers.len() - 1].1.contains(server));
    }
}

/// What a resync accomplished for one path, and what the drain does because of
/// it.
#[derive(Clone, Debug, PartialEq, Eq)]
pub enum ResyncStep {
    /// Content is synchronized; saves still need the captured version and
    /// processes.
    NeedsSave {
        /// The version that was sent.
        version: i32,
        /// The servers, each with the process it was sent to.
        servers: Vec<(ServerId, u64)>,
    },
    /// Fully resynchronized, gone, or not routable: leave the queue.
    Done,
    /// A failed open or read or a stale save leaves this path queued.
    Deferred,
    /// A notice failed on this path's connection to a server. Every other path
    /// queued for that server is behind the same broken connection.
    NotifyFailed,
}

/// What a [`ResyncStep`] stands for.
pub enum StepView {
    /// Content is synchronized; saves are still owed.
    NeedsSave {
        /// The version that was sent.
        version: i32,
        /// The servers, each with the process it was sent to.
        servers: Seq<(Seq<char>, u64)>,
    },
    /// Leave the queue.
    Done,
    /// Stay queued.
    Deferred,
    /// Stop the drain.
    NotifyFailed,
}

impl DeepView for ResyncStep {
    type V = StepView;

    open spec fn deep_view(&self) -> StepView {
        match self {
            ResyncStep::NeedsSave { version, servers } => StepView::NeedsSave {
                version: *version,
                servers: servers.deep_view(),
            },
            ResyncStep::Done => StepView::Done,
            ResyncStep::Deferred => StepView::Deferred,
            ResyncStep::NotifyFailed => StepView::NotifyFailed,
        }
    }
}

/// What was learned about a path, one thing after the other.
#[derive(Clone, Debug, PartialEq, Eq)]
pub enum ResyncSeen {
    /// Where it is routed to, and whether that server has its content.
    Routed {
        /// Whether a server routes it.
        routed: bool,
        /// Whether that server has its content.
        synced: bool,
        /// Whether the file is there.
        presence: Presence,
    },
    /// What opening it achieved.
    Opened {
        /// The outcome.
        outcome: OpenOutcome,
        /// Whether the document is tracked anyway.
        held: bool,
    },
    /// Whether the file is there, under the path's lock.
    Locked {
        /// Whether it is there.
        presence: Presence,
    },
    /// What reading it again came to.
    Reread(Reread),
    /// Which servers hold it, with their processes, if it is still held, and
    /// the server it is routed to.
    Held {
        /// The servers that hold it.
        servers: Option<Vec<(ServerId, u64)>>,
        /// The server it is routed to.
        routed: Option<(ServerId, u64)>,
    },
    /// Whether every change was sent.
    Sent {
        /// Whether all went well.
        ok: bool,
        /// The version that was sent.
        version: i32,
        /// The servers, each with its process.
        servers: Vec<(ServerId, u64)>,
    },
}

/// What reading a file again came to.
#[derive(Clone, Copy, Debug, PartialEq, Eq, Structural)]
pub enum Reread {
    /// The tracked document is up to date with it.
    Refreshed,
    /// The document is not tracked.
    Untracked,
    /// It could not be read.
    Failed,
}

/// What a [`ResyncSeen`] stands for.
pub enum SeenView {
    /// Where it is routed to, and whether that server has its content.
    Routed {
        /// Whether a server routes it.
        routed: bool,
        /// Whether that server has its content.
        synced: bool,
        /// Whether the file is there.
        presence: Presence,
    },
    /// What opening it achieved.
    Opened {
        /// The outcome.
        outcome: OpenOutcome,
        /// Whether the document is tracked anyway.
        held: bool,
    },
    /// Whether the file is there, under the path's lock.
    Locked {
        /// Whether it is there.
        presence: Presence,
    },
    /// What reading it again came to.
    Reread(Reread),
    /// Which servers hold it, and the server it is routed to.
    Held {
        /// The servers that hold it.
        servers: Option<Seq<(Seq<char>, u64)>>,
        /// The server it is routed to.
        routed: Option<(Seq<char>, u64)>,
    },
    /// Whether every change was sent.
    Sent {
        /// Whether all went well.
        ok: bool,
        /// The version that was sent.
        version: i32,
        /// The servers, each with its process.
        servers: Seq<(Seq<char>, u64)>,
    },
}

impl DeepView for ResyncSeen {
    type V = SeenView;

    open spec fn deep_view(&self) -> SeenView {
        match self {
            ResyncSeen::Routed { routed, synced, presence } => SeenView::Routed {
                routed: *routed,
                synced: *synced,
                presence: *presence,
            },
            ResyncSeen::Opened { outcome, held } => SeenView::Opened {
                outcome: *outcome,
                held: *held,
            },
            ResyncSeen::Locked { presence } => SeenView::Locked { presence: *presence },
            ResyncSeen::Reread(r) => SeenView::Reread(*r),
            ResyncSeen::Held { servers, routed } => SeenView::Held {
                servers: servers.deep_view(),
                routed: routed.deep_view(),
            },
            ResyncSeen::Sent { ok, version, servers } => SeenView::Sent {
                ok: *ok,
                version: *version,
                servers: servers.deep_view(),
            },
        }
    }
}

/// What a resync of one path does next.
#[derive(Clone, Debug, PartialEq, Eq)]
pub enum ResyncNext {
    /// Open the path.
    Open,
    /// Take the path's lock and look whether the file is there.
    Lock,
    /// Read the file again.
    Reread,
    /// List the servers that hold the document.
    ListServers,
    /// Send the changes to those of these servers that lack them.
    Send(Vec<(ServerId, u64)>),
    /// The path is dealt with for now.
    Finish {
        /// Whether the document is to be closed.
        close: bool,
        /// What its watchers are to be told.
        watch: Option<WatchKind>,
        /// What the drain does because of it.
        step: ResyncStep,
    },
}

/// What a [`ResyncNext`] stands for.
pub enum NextView {
    /// Open the path.
    Open,
    /// Take the path's lock and look whether the file is there.
    Lock,
    /// Read the file again.
    Reread,
    /// List the servers that hold the document.
    ListServers,
    /// Send the changes to those of these servers that lack them.
    Send(Seq<(Seq<char>, u64)>),
    /// The path is dealt with for now.
    Finish {
        /// Whether the document is to be closed.
        close: bool,
        /// What its watchers are to be told.
        watch: Option<WatchKind>,
        /// What the drain does because of it.
        step: StepView,
    },
}

impl DeepView for ResyncNext {
    type V = NextView;

    open spec fn deep_view(&self) -> NextView {
        match self {
            ResyncNext::Open => NextView::Open,
            ResyncNext::Lock => NextView::Lock,
            ResyncNext::Reread => NextView::Reread,
            ResyncNext::ListServers => NextView::ListServers,
            ResyncNext::Send(servers) => NextView::Send(servers.deep_view()),
            ResyncNext::Finish { close, watch, step } => NextView::Finish {
                close: *close,
                watch: *watch,
                step: step.deep_view(),
            },
        }
    }
}

/// The servers of another name.
pub open spec fn others(servers: Seq<(Seq<char>, u64)>, name: Seq<char>) -> Seq<(Seq<char>, u64)> {
    servers.filter(|s: (Seq<char>, u64)| s.0 != name)
}

/// The servers to bring up to date: those that hold the document, and the one
/// it is routed to, last and with the process captured for it.
pub open spec fn servers_to_sync(
    servers: Seq<(Seq<char>, u64)>,
    routed: Option<(Seq<char>, u64)>,
) -> Seq<(Seq<char>, u64)> {
    match routed {
        None => servers,
        Some(r) => others(servers, r.0).push(r),
    }
}

/// A path that is dealt with, its watchers being told `watch`.
pub open spec fn finish(watch: Option<WatchKind>, step: StepView) -> NextView {
    NextView::Finish { close: false, watch, step }
}

/// What a resync of one path does next, given what was learned last.
pub open spec fn resync_next(seen: SeenView) -> NextView {
    match seen {
        SeenView::Routed { routed, synced, presence } => if presence == Presence::Present && !(routed
            && synced) {
            NextView::Open
        } else {
            NextView::Lock
        },
        SeenView::Opened { outcome, held } => match outcome {
            OpenOutcome::Opened => NextView::Lock,
            OpenOutcome::NoRoute => if held {
                NextView::Lock
            } else {
                finish(Some(WatchKind::Changed), StepView::Done)
            },
            _ => finish(Some(WatchKind::Changed), StepView::Deferred),
        },
        SeenView::Locked { presence } => match presence {
            Presence::Absent => NextView::Finish {
                close: true,
                watch: Some(WatchKind::Deleted),
                step: StepView::Done,
            },
            Presence::Present => NextView::Reread,
            Presence::Unknown => finish(None, StepView::Deferred),
        },
        SeenView::Reread(r) => match r {
            Reread::Refreshed => NextView::ListServers,
            Reread::Untracked => finish(Some(WatchKind::Changed), StepView::Done),
            Reread::Failed => finish(None, StepView::Deferred),
        },
        SeenView::Held { servers, routed } => match servers {
            None => finish(None, StepView::Deferred),
            Some(list) => if servers_to_sync(list, routed).len() == 0 {
                finish(None, StepView::Deferred)
            } else {
                NextView::Send(servers_to_sync(list, routed))
            },
        },
        SeenView::Sent { ok, version, servers } => if ok {
            finish(None, StepView::NeedsSave { version, servers })
        } else {
            finish(None, StepView::NotifyFailed)
        },
    }
}

fn merged_servers(servers: Vec<(ServerId, u64)>, routed: Option<(ServerId, u64)>) -> (r: Vec<
    (ServerId, u64),
>)
    ensures
        r.deep_view() == servers_to_sync(servers.deep_view(), routed.deep_view()),
{
    let routed = match routed {
        None => {
            return servers;
        },
        Some(routed) => routed,
    };
    let ghost all = servers.deep_view();
    let ghost name = routed.0@;
    let mut r: Vec<(ServerId, u64)> = Vec::new();
    let mut i: usize = 0;
    proof {
        reveal(Seq::filter);
        assert(all.take(0) =~= Seq::<(Seq<char>, u64)>::empty());
        assert(r.deep_view() =~= Seq::<(Seq<char>, u64)>::empty());
    }
    while i < servers.len()
        invariant
            i <= servers.len(),
            all == servers.deep_view(),
            name == routed.0@,
            r.deep_view() == others(all.take(i as int), name),
        decreases servers.len() - i,
    {
        let ghost before = r.deep_view();
        proof {
            let next = all.take(i + 1);
            assert(next.drop_last() =~= all.take(i as int));
            assert(next.last() == all[i as int]);
            reveal(Seq::filter);
        }
        if !servers[i].0.same(&routed.0) {
            r.push((servers[i].0.dup(), servers[i].1));
            assert(r.deep_view() =~= before.push(all[i as int]));
        }
        i = i + 1;
    }
    let ghost before = r.deep_view();
    let ghost last = (routed.0@, routed.1);
    r.push(routed);
    proof {
        assert(all.take(i as int) =~= all);
        assert(r.deep_view() =~= before.push(last));
    }
    r
}

/// What comes next of sending a document's new content.
#[derive(Clone, Debug, PartialEq, Eq)]
pub enum SendNext {
    /// Send it to this server, at this process.
    Change(ServerId, u64),
    /// Everyone has it.
    AllSent,
    /// A change could not be sent.
    Broken,
}

/// What a [`SendNext`] stands for.
pub enum SendView {
    /// Send it to this server, at this process.
    Change(Seq<char>, u64),
    /// Everyone has it.
    AllSent,
    /// A change could not be sent.
    Broken,
}

impl DeepView for SendNext {
    type V = SendView;

    open spec fn deep_view(&self) -> SendView {
        match self {
            SendNext::Change(server, generation) => SendView::Change(server@, *generation),
            SendNext::AllSent => SendView::AllSent,
            SendNext::Broken => SendView::Broken,
        }
    }
}

/// Of the servers, those that lack the new content.
pub open spec fn lacking(servers: Seq<(Seq<char>, u64)>, needs_change: Seq<Seq<char>>) -> Seq<
    (Seq<char>, u64),
> {
    servers.filter(|s: (Seq<char>, u64)| needs_change.contains(s.0))
}

/// What comes next of sending a document's new content to those that lack it,
/// one after the other, until one of them cannot be reached.
pub open spec fn send_next(
    servers: Seq<(Seq<char>, u64)>,
    needs_change: Seq<Seq<char>>,
    results: Seq<bool>,
) -> SendView {
    let due = lacking(servers, needs_change);
    if results.contains(false) {
        SendView::Broken
    } else if results.len() < due.len() {
        SendView::Change(due[results.len() as int].0, due[results.len() as int].1)
    } else {
        SendView::AllSent
    }
}

fn is_listed(server: &ServerId, list: &Vec<ServerId>) -> (r: bool)
    ensures
        r == list.deep_view().contains(server@),
{
    let ghost all = list.deep_view();
    let mut i: usize = 0;
    while i < list.len()
        invariant
            i <= list.len(),
            all == list.deep_view(),
            forall|j: int| 0 <= j < i ==> #[trigger] all[j] != server@,
        decreases list.len() - i,
    {
        assert(all[i as int] == list@[i as int]@);
        if list[i].same(server) {
            return true;
        }
        i = i + 1;
    }
    false
}

/// Of the servers that hold a document, those that can be told.
pub open spec fn reachable(synced: Seq<Seq<char>>, live: Seq<Seq<char>>) -> Seq<Seq<char>> {
    synced.filter(|id: Seq<char>| live.contains(id))
}

/// The servers that are told that a removed document is closed: each one that
/// holds it, in order, and has a client among those that are `live`.
pub fn close_notices(synced: &Vec<ServerId>, live: &Vec<ServerId>) -> (r: Vec<ServerId>)
    ensures
        r.deep_view() == reachable(synced.deep_view(), live.deep_view()),
{
    let ghost all = synced.deep_view();
    let mut r: Vec<ServerId> = Vec::new();
    let mut i: usize = 0;
    proof {
        reveal(Seq::filter);
        assert(all.take(0) =~= Seq::<Seq<char>>::empty());
        assert(r.deep_view() =~= Seq::<Seq<char>>::empty());
    }
    while i < synced.len()
        invariant
            i <= synced.len(),
            all == synced.deep_view(),
            r.deep_view() == reachable(all.take(i as int), live.deep_view()),
        decreases synced.len() - i,
    {
        let ghost before = r.deep_view();
        proof {
            let next = all.take(i + 1);
            assert(next.drop_last() =~= all.take(i as int));
            assert(next.last() == all[i as int]);
            reveal(Seq::filter);
        }
        if is_listed(&synced[i], live) {
            r.push(synced[i].dup());
            assert(r.deep_view() =~= before.push(all[i as int]));
        }
        i = i + 1;
    }
    assert(all.take(i as int) =~= all);
    r
}

fn servers_lacking(servers: &Vec<(ServerId, u64)>, needs_change: &Vec<ServerId>) -> (r: Vec<
    (ServerId, u64),
>)
    ensures
        r.deep_view() == lacking(servers.deep_view(), needs_change.deep_view()),
{
    let ghost all = servers.deep_view();
    let mut r: Vec<(ServerId, u64)> = Vec::new();
    let mut i: usize = 0;
    proof {
        reveal(Seq::filter);
        assert(all.take(0) =~= Seq::<(Seq<char>, u64)>::empty());
        assert(r.deep_view() =~= Seq::<(Seq<char>, u64)>::empty());
    }
    while i < servers.len()
        invariant
            i <= servers.len(),
            all == servers.deep_view(),
            r.deep_view() == lacking(all.take(i as int), needs_change.deep_view()),
        decreases servers.len() - i,
    {
        let ghost before = r.deep_view();
        proof {
            let next = all.take(i + 1);
            assert(next.drop_last() =~= all.take(i as int));
            assert(next.last() == all[i as int]);
            reveal(Seq::filter);
        }
        if is_listed(&servers[i].0, needs_change) {
            r.push((servers[i].0.dup(), servers[i].1));
            assert(r.deep_view() =~= before.push(all[i as int]));
        }
        i = i + 1;
    }
    assert(all.take(i as int) =~= all);
    r
}

/// What comes next of sending a document's new content, given whether each of
/// the changes sent so far went through.
pub fn send_resync_changes(
    servers: &Vec<(ServerId, u64)>,
    needs_change: &Vec<ServerId>,
    results: &Vec<bool>,
) -> (r: SendNext)
    ensures
        r.deep_view() == send_next(servers.deep_view(), needs_change.deep_view(), results@),
{
    let mut i: usize = 0;
    while i < results.len()
        invariant
            i <= results.len(),
            forall|j: int| 0 <= j < i ==> #[trigger] results@[j],
        decreases results.len() - i,
    {
        if !results[i] {
            assert(results@[i as int] == false);
            return SendNext::Broken;
        }
        i = i + 1;
    }
    let due = servers_lacking(servers, needs_change);
    if results.len() < due.len() {
        let n: usize = results.len();
        assert(due.deep_view()[n as int] == (due@[n as int].0@, due@[n as int].1));
        SendNext::Change(due[n].0.dup(), due[n].1)
    } else {
        SendNext::AllSent
    }
}

/// What a resync of one path does next, given what was learned last.
///
/// Opening precedes the path's lock because opening takes that same lock. A
/// file that cannot be looked at is not taken to be gone.
pub fn resync_one_document(seen: ResyncSeen) -> (r: ResyncNext)
    ensures
        r.deep_view() == resync_next(seen.deep_view()),
{
    match seen {
        ResyncSeen::Routed { routed, synced, presence } => {
            if presence == Presence::Present && !(routed && synced) {
                ResyncNext::Open
            } else {
                ResyncNext::Lock
            }
        },
        ResyncSeen::Opened { outcome, held } => match outcome {
            OpenOutcome::Opened => ResyncNext::Lock,
            OpenOutcome::NoRoute => {
                if held {
                    ResyncNext::Lock
                } else {
                    ResyncNext::Finish {
                        close: false,
                        watch: Some(WatchKind::Changed),
                        step: ResyncStep::Done,
                    }
                }
            },
            _ => ResyncNext::Finish {
                close: false,
                watch: Some(WatchKind::Changed),
                step: ResyncStep::Deferred,
            },
        },
        ResyncSeen::Locked { presence } => match presence {
            Presence::Absent => ResyncNext::Finish {
                close: true,
                watch: Some(WatchKind::Deleted),
                step: ResyncStep::Done,
            },
            Presence::Present => ResyncNext::Reread,
            Presence::Unknown => ResyncNext::Finish {
                close: false,
                watch: None,
                step: ResyncStep::Deferred,
            },
        },
        ResyncSeen::Reread(reread) => match reread {
            Reread::Refreshed => ResyncNext::ListServers,
            Reread::Untracked => ResyncNext::Finish {
                close: false,
                watch: Some(WatchKind::Changed),
                step: ResyncStep::Done,
            },
            Reread::Failed => ResyncNext::Finish {
                close: false,
                watch: None,
                step: ResyncStep::Deferred,
            },
        },
        ResyncSeen::Held { servers, routed } => {
            let list = match servers {
                None => {
                    return ResyncNext::Finish {
                        close: false,
                        watch: None,
                        step: ResyncStep::Deferred,
                    };
                },
                Some(list) => list,
            };
            let merged = merged_servers(list, routed);
            if merged.len() == 0 {
                ResyncNext::Finish { close: false, watch: None, step: ResyncStep::Deferred }
            } else {
                ResyncNext::Send(merged)
            }
        },
        ResyncSeen::Sent { ok, version, servers } => {
            if ok {
                ResyncNext::Finish {
                    close: false,
                    watch: None,
                    step: ResyncStep::NeedsSave { version, servers },
                }
            } else {
                ResyncNext::Finish { close: false, watch: None, step: ResyncStep::NotifyFailed }
            }
        },
    }
}

/// A document is closed only where its file is known to be gone.
pub proof fn law_only_a_missing_file_is_closed(seen: SeenView)
    requires
        resync_next(seen) matches NextView::Finish { close, .. } && close,
    ensures
        seen == (SeenView::Locked { presence: Presence::Absent }),
{
}

/// The server a path is routed to is brought up to date exactly once, and so is
/// every other server that held it once.
pub proof fn law_the_routed_server_is_synced_once(
    servers: Seq<(Seq<char>, u64)>,
    routed: (Seq<char>, u64),
)
    ensures
        servers_to_sync(servers, Some(routed)).last() == routed,
        forall|i: int|
            0 <= i < servers_to_sync(servers, Some(routed)).len() - 1 ==> (
            #[trigger] servers_to_sync(servers, Some(routed))[i]).0 != routed.0,
        forall|s: (Seq<char>, u64)| #[trigger]
            servers.contains(s) && s.0 != routed.0 ==> servers_to_sync(
                servers,
                Some(routed),
            ).contains(s),
{
    let keep = |s: (Seq<char>, u64)| s.0 != routed.0;
    let kept = others(servers, routed.0);
    let all = servers_to_sync(servers, Some(routed));
    servers.filter_lemma(keep);
    assert forall|i: int| 0 <= i < all.len() - 1 implies (#[trigger] all[i]).0 != routed.0 by {
        assert(all[i] == kept[i]);
        assert(keep(kept[i]));
    }
    assert forall|s: (Seq<char>, u64)| #[trigger]
        servers.contains(s) && s.0 != routed.0 implies all.contains(s) by {
        let i = choose|i: int| 0 <= i < servers.len() && servers[i] == s;
        assert(keep(servers[i]));
        assert(kept.contains(s));
        let j = choose|j: int| 0 <= j < kept.len() && kept[j] == s;
        assert(all[j] == s);
    }
}

/// What is known of a document when a save is about to be sent to a server.
#[derive(Clone, Copy, Debug, PartialEq, Eq, Structural)]
pub struct SaveState {
    /// The document's version.
    pub version: i32,
    /// The version that the server has.
    pub synced: Option<i32>,
    /// The version that the server was told was saved.
    pub saved: Option<i32>,
    /// The server's present process.
    pub generation: u64,
}

/// What to do about one server's save.
#[derive(Clone, Copy, Debug, PartialEq, Eq, Structural)]
pub enum SaveNext {
    /// Send it.
    Send,
    /// The server knows of it already.
    Skip,
    /// The save is stale: leave the path queued.
    Stale,
}

/// What is due of one server's save, prepared for `version` and the process
/// `generation`.
pub open spec fn save_due(version: i32, generation: u64, state: Option<SaveState>) -> SaveNext {
    match state {
        None => SaveNext::Stale,
        Some(s) => if s.version != version || s.synced != Some(version) || s.generation
            != generation {
            SaveNext::Stale
        } else if s.saved is Some && s.saved->Some_0 >= version {
            SaveNext::Skip
        } else {
            SaveNext::Send
        },
    }
}

/// A save is sent only to the process that has exactly the version it is for,
/// and only where that process was not told of it or of a later one. A server
/// that knows is skipped; anything else is stale.
pub proof fn law_which_saves_are_sent(
    version: i32,
    generation: u64,
    state: Option<SaveState>,
    s: SaveState,
)
    ensures
        save_due(version, generation, state) == SaveNext::Stale <==> !(state is Some
            && state->Some_0.version == version && state->Some_0.synced == Some(version)
            && state->Some_0.generation == generation),
        save_due(version, generation, Some(s)) == SaveNext::Send ==> s.saved is None
            || s.saved->Some_0 < version,
        save_due(version, generation, Some(s)) == SaveNext::Skip ==> s.saved is Some
            && s.saved->Some_0 >= version,
        save_due(version, generation, Some(s)) == SaveNext::Send ==> save_due(
            version,
            generation,
            Some(SaveState { saved: Some(version), ..s }),
        ) == SaveNext::Skip,
{
}

/// What to do about one server's save, prepared for `version` and the process
/// `generation`. A concurrent open or a replaced process makes it stale.
pub fn prepare_save(version: i32, generation: u64, state: Option<SaveState>) -> (r: SaveNext)
    ensures
        r == (match state {
            None => SaveNext::Stale,
            Some(s) => if s.version != version || s.synced != Some(version) || s.generation
                != generation {
                SaveNext::Stale
            } else if s.saved is Some && s.saved->Some_0 >= version {
                SaveNext::Skip
            } else {
                SaveNext::Send
            },
        }),
        r == save_due(version, generation, state),
{
    match state {
        None => SaveNext::Stale,
        Some(s) => {
            let current = match s.synced {
                Some(synced) => synced == version,
                None => false,
            };
            if s.version != version || !current || s.generation != generation {
                return SaveNext::Stale;
            }
            match s.saved {
                Some(saved) => if saved >= version {
                    SaveNext::Skip
                } else {
                    SaveNext::Send
                },
                None => SaveNext::Send,
            }
        },
    }
}

/// What became of one server's save.
#[derive(Clone, Copy, Debug, PartialEq, Eq, Structural)]
pub enum SaveResult {
    /// The server knows of it, and its process is still the one it was
    /// prepared for.
    Known,
    /// It was stale, or its process was replaced meanwhile.
    Stale,
    /// It could not be sent.
    NotSent,
}

/// What a save came to, given whether it could be sent and the server's process
/// before and afterwards.
pub open spec fn save_result(sent: bool, process: u64, process_now: u64) -> SaveResult {
    if !sent {
        SaveResult::NotSent
    } else if process_now != process {
        SaveResult::Stale
    } else {
        SaveResult::Known
    }
}

/// A save is known of exactly where it was sent and the process is still the one
/// it was sent to.
pub proof fn law_when_a_save_is_known(sent: bool, process: u64, process_now: u64)
    ensures
        save_result(sent, process, process_now) == SaveResult::Known <==> sent && process
            == process_now,
        save_result(sent, process, process_now) == SaveResult::NotSent <==> !sent,
{
}

/// What became of a save that was prepared for a process, given whether it could
/// be sent and the server's process afterwards.
pub fn judge_sent_save(sent: bool, process: u64, process_now: u64) -> (r: SaveResult)
    ensures
        r == (if !sent {
            SaveResult::NotSent
        } else if process_now != process {
            SaveResult::Stale
        } else {
            SaveResult::Known
        }),
        r == save_result(sent, process, process_now),
{
    if !sent {
        SaveResult::NotSent
    } else if process_now != process {
        SaveResult::Stale
    } else {
        SaveResult::Known
    }
}

/// What the saves of one path came to: done once every server knows.
pub open spec fn saves_step(results: Seq<SaveResult>) -> StepView
    decreases results.len(),
{
    if results.len() == 0 {
        StepView::Done
    } else if results[0] == SaveResult::Known {
        saves_step(results.drop_first())
    } else if results[0] == SaveResult::Stale {
        StepView::Deferred
    } else {
        StepView::NotifyFailed
    }
}

/// What comes next of telling the servers of a path that it was saved.
#[derive(Clone, Debug, PartialEq, Eq)]
pub enum SavesNext {
    /// Tell this server, at this process.
    Tell(ServerId, u64),
    /// The path is dealt with for now.
    Finish {
        /// What its watchers are to be told.
        watch: Option<WatchKind>,
        /// What the drain does because of it.
        step: ResyncStep,
    },
}

/// What a [`SavesNext`] stands for.
pub enum SavesView {
    /// Tell this server, at this process.
    Tell(Seq<char>, u64),
    /// The path is dealt with for now.
    Finish {
        /// What its watchers are to be told.
        watch: Option<WatchKind>,
        /// What the drain does because of it.
        step: StepView,
    },
}

impl DeepView for SavesNext {
    type V = SavesView;

    open spec fn deep_view(&self) -> SavesView {
        match self {
            SavesNext::Tell(id, process) => SavesView::Tell(id@, *process),
            SavesNext::Finish { watch, step } => SavesView::Finish {
                watch: *watch,
                step: step.deep_view(),
            },
        }
    }
}

/// What comes next of telling the servers of a path that it was saved: one
/// after the other, until one of the saves fails. The path's watchers are told
/// of the change once every server knows.
pub open spec fn saves_next(servers: Seq<(Seq<char>, u64)>, results: Seq<SaveResult>) -> SavesView {
    if saves_step(results) !is Done {
        SavesView::Finish { watch: None, step: saves_step(results) }
    } else if results.len() < servers.len() {
        SavesView::Tell(servers[results.len() as int].0, servers[results.len() as int].1)
    } else {
        SavesView::Finish { watch: Some(WatchKind::Changed), step: StepView::Done }
    }
}

/// What comes next of telling the servers of a path that it was saved, given
/// what became of the saves so far.
pub fn save_resynced_document(servers: &Vec<(ServerId, u64)>, results: &Vec<SaveResult>) -> (r:
    SavesNext)
    ensures
        r.deep_view() == saves_next(servers.deep_view(), results@),
{
    let mut i: usize = 0;
    assert(results@.skip(0) =~= results@);
    while i < results.len()
        invariant
            i <= results.len(),
            saves_step(results@) == saves_step(results@.skip(i as int)),
        decreases results.len() - i,
    {
        proof {
            let rest = results@.skip(i as int);
            assert(rest[0] == results@[i as int]);
            assert(rest.drop_first() =~= results@.skip(i + 1));
        }
        match results[i] {
            SaveResult::Known => {},
            SaveResult::Stale => {
                return SavesNext::Finish { watch: None, step: ResyncStep::Deferred };
            },
            SaveResult::NotSent => {
                return SavesNext::Finish { watch: None, step: ResyncStep::NotifyFailed };
            },
        }
        i = i + 1;
    }
    if results.len() < servers.len() {
        let next = &servers[results.len()];
        assert(servers.deep_view()[results.len() as int] == next.deep_view());
        return SavesNext::Tell(next.0.dup(), next.1);
    }
    SavesNext::Finish { watch: Some(WatchKind::Changed), step: ResyncStep::Done }
}

/// The watchers of a path are told of its save only once every server it was
/// sent to knows of it.
pub proof fn law_watchers_are_told_last(servers: Seq<(Seq<char>, u64)>, results: Seq<SaveResult>)
    ensures
        saves_next(servers, results) matches SavesView::Finish { watch: Some(_), .. } ==> {
            &&& results.len() >= servers.len()
            &&& forall|i: int|
                0 <= i < results.len() ==> #[trigger] results[i] == SaveResult::Known
        },
{
    law_saved_means_every_server_knows(results);
}

/// A path leaves the queue by its saves exactly when every server knows.
pub proof fn law_saved_means_every_server_knows(results: Seq<SaveResult>)
    ensures
        saves_step(results) is Done <==> forall|i: int|
            0 <= i < results.len() ==> #[trigger] results[i] == SaveResult::Known,
    decreases results.len(),
{
    if results.len() > 0 {
        let rest = results.drop_first();
        law_saved_means_every_server_knows(rest);
        if results[0] == SaveResult::Known {
            assert forall|i: int| 0 <= i < rest.len() implies rest[i] == results[i + 1] by {}
            if forall|i: int| 0 <= i < rest.len() ==> #[trigger] rest[i] == SaveResult::Known {
                assert forall|i: int| 0 <= i < results.len() implies #[trigger] results[i]
                    == SaveResult::Known by {
                    if i > 0 {
                        assert(rest[i - 1] == SaveResult::Known);
                    }
                }
            }
            if forall|i: int| 0 <= i < results.len() ==> #[trigger] results[i]
                == SaveResult::Known {
                assert forall|i: int| 0 <= i < rest.len() implies #[trigger] rest[i]
                    == SaveResult::Known by {
                    assert(results[i + 1] == SaveResult::Known);
                }
            }
        }
    }
}

/// A save that is owed once the whole batch's content is synchronized.
#[derive(Clone, Debug, PartialEq, Eq)]
pub struct OwedSave {
    /// The path.
    pub path: String,
    /// The version that was sent.
    pub version: i32,
    /// The servers, each with its process.
    pub servers: Vec<(ServerId, u64)>,
}

/// What an [`OwedSave`] stands for.
pub struct OwedView {
    /// The path.
    pub path: Seq<char>,
    /// The version that was sent.
    pub version: i32,
    /// The servers, each with its process.
    pub servers: Seq<(Seq<char>, u64)>,
}

impl OwedSave {
    fn dup(&self) -> (r: Self)
        ensures
            r.deep_view() == self.deep_view(),
    {
        let mut servers: Vec<(ServerId, u64)> = Vec::new();
        let ghost all = self.servers.deep_view();
        let mut i: usize = 0;
        assert(servers.deep_view() =~= all.take(0));
        while i < self.servers.len()
            invariant
                i <= self.servers.len(),
                all == self.servers.deep_view(),
                servers.deep_view() == all.take(i as int),
            decreases self.servers.len() - i,
        {
            let ghost before = servers.deep_view();
            servers.push((self.servers[i].0.dup(), self.servers[i].1));
            assert(servers.deep_view() =~= before.push(all[i as int]));
            assert(all.take(i + 1) =~= all.take(i as int).push(all[i as int]));
            i = i + 1;
        }
        assert(all.take(i as int) =~= all);
        OwedSave { path: self.path.clone(), version: self.version, servers }
    }
}

impl DeepView for OwedSave {
    type V = OwedView;

    open spec fn deep_view(&self) -> OwedView {
        OwedView {
            path: self.path@,
            version: self.version,
            servers: self.servers.deep_view(),
        }
    }
}

/// One drain of the queue of changed paths. What is left of it when it ends,
/// for whatever reason, goes back on the queue.
pub struct ResyncDrain {
    remaining: Vec<String>,
    index: usize,
    saves: Vec<OwedSave>,
    stopped: bool,
}

/// What a [`ResyncDrain`] stands for.
#[verifier::ext_equal]
pub struct DrainView {
    /// The paths that are not dealt with.
    pub remaining: Seq<Seq<char>>,
    /// How many of those were looked at.
    pub index: nat,
    /// The saves that are owed.
    pub saves: Seq<OwedView>,
    /// Whether a connection broke.
    pub stopped: bool,
}

impl View for ResyncDrain {
    type V = DrainView;

    closed spec fn view(&self) -> DrainView {
        DrainView {
            remaining: self.remaining.deep_view(),
            index: self.index as nat,
            saves: self.saves.deep_view(),
            stopped: self.stopped,
        }
    }
}

/// The drain after the path at hand came to `step`.
pub open spec fn drained(d: DrainView, step: StepView) -> DrainView {
    match step {
        StepView::NeedsSave { version, servers } => DrainView {
            saves: d.saves.push(
                OwedView { path: d.remaining[d.index as int], version, servers },
            ),
            index: d.index + 1,
            ..d
        },
        StepView::Done => DrainView { remaining: d.remaining.remove(d.index as int), ..d },
        StepView::Deferred => DrainView { index: d.index + 1, ..d },
        StepView::NotifyFailed => DrainView { stopped: true, ..d },
    }
}

/// The paths other than `path`.
pub open spec fn other_paths(paths: Seq<Seq<char>>, path: Seq<char>) -> Seq<Seq<char>> {
    paths.filter(|p: Seq<char>| p != path)
}

/// The drain after the oldest owed save came to `step`.
pub open spec fn drained_save(d: DrainView, step: StepView) -> DrainView {
    let left = other_paths(d.remaining, d.saves[0].path);
    match step {
        StepView::Done => DrainView {
            remaining: left,
            index: left.len(),
            saves: d.saves.drop_first(),
            ..d
        },
        StepView::NotifyFailed => DrainView { stopped: true, ..d },
        _ => DrainView { saves: d.saves.drop_first(), ..d },
    }
}

/// What a drain does next.
#[derive(Clone, Debug, PartialEq, Eq)]
pub enum DrainNext {
    /// Synchronize the content of this path.
    Sync(String),
    /// Send this save.
    Save(OwedSave),
    /// Nothing: it is over.
    Over,
}

/// What a [`DrainNext`] stands for.
pub enum DrainNextView {
    /// Synchronize the content of this path.
    Sync(Seq<char>),
    /// Send this save.
    Save(OwedView),
    /// Nothing: it is over.
    Over,
}

impl DeepView for DrainNext {
    type V = DrainNextView;

    open spec fn deep_view(&self) -> DrainNextView {
        match self {
            DrainNext::Sync(path) => DrainNextView::Sync(path@),
            DrainNext::Save(owed) => DrainNextView::Save(owed.deep_view()),
            DrainNext::Over => DrainNextView::Over,
        }
    }
}

/// What a drain does next: the content of every path goes out before any save.
pub open spec fn drain_next(d: DrainView) -> DrainNextView {
    if d.stopped {
        DrainNextView::Over
    } else if d.index < d.remaining.len() {
        DrainNextView::Sync(d.remaining[d.index as int])
    } else if d.saves.len() > 0 {
        DrainNextView::Save(d.saves[0])
    } else {
        DrainNextView::Over
    }
}

impl ResyncDrain {
    #[verifier::type_invariant]
    spec fn in_range(self) -> bool {
        self.index <= self.remaining.len()
    }

    /// A drain of `paths`.
    pub fn new(paths: Vec<String>) -> (r: Self)
        ensures
            r@ == (DrainView {
                remaining: paths.deep_view(),
                index: 0,
                saves: Seq::empty(),
                stopped: false,
            }),
    {
        let saves: Vec<OwedSave> = Vec::new();
        assert(saves.deep_view() =~= Seq::<OwedView>::empty());
        ResyncDrain { remaining: paths, index: 0, saves, stopped: false }
    }

    /// What comes next: every path's content, and only then the saves.
    pub fn next(&self) -> (r: DrainNext)
        ensures
            r.deep_view() == drain_next(self@),
    {
        if self.stopped {
            DrainNext::Over
        } else if self.index < self.remaining.len() {
            DrainNext::Sync(self.remaining[self.index].clone())
        } else if self.saves.len() > 0 {
            assert(self.saves.deep_view()[0] == self.saves[0].deep_view());
            DrainNext::Save(self.saves[0].dup())
        } else {
            DrainNext::Over
        }
    }

    /// Record what the path at hand came to.
    pub fn record(&mut self, step: ResyncStep)
        requires
            drain_next(old(self)@) is Sync,
        ensures
            final(self)@ == drained(old(self)@, step.deep_view()),
    {
        proof {
            use_type_invariant(&*self);
        }
        let ghost before = self@;
        match step {
            ResyncStep::NeedsSave { version, servers } => {
                let path = self.remaining[self.index].clone();
                let save = OwedSave { path, version, servers };
                let ghost view = save.deep_view();
                let mut saves: Vec<OwedSave> = Vec::new();
                std::mem::swap(&mut self.saves, &mut saves);
                saves.push(save);
                assert(saves.deep_view() =~= before.saves.push(view));
                self.saves = saves;
                self.index = self.index + 1;
            },
            ResyncStep::Done => {
                let mut remaining: Vec<String> = Vec::new();
                let index: usize = self.index;
                self.index = 0;
                std::mem::swap(&mut self.remaining, &mut remaining);
                let _ = remaining.remove(index);
                assert(remaining.deep_view() =~= before.remaining.remove(index as int));
                self.remaining = remaining;
                self.index = index;
            },
            ResyncStep::Deferred => {
                self.index = self.index + 1;
            },
            ResyncStep::NotifyFailed => {
                self.stopped = true;
            },
        }
    }

    /// Whether a connection broke.
    pub fn is_stopped(&self) -> (r: bool)
        ensures
            r == self@.stopped,
    {
        self.stopped
    }

    /// Record what the oldest owed save came to.
    pub fn record_save(&mut self, step: ResyncStep)
        requires
            drain_next(old(self)@) is Save,
        ensures
            final(self)@ == drained_save(old(self)@, step.deep_view()),
    {
        proof {
            use_type_invariant(&*self);
        }
        if let ResyncStep::NotifyFailed = step {
            self.stopped = true;
            return;
        }
        let ghost start = self@;
        let mut saves: Vec<OwedSave> = Vec::new();
        std::mem::swap(&mut self.saves, &mut saves);
        let first = saves.remove(0);
        assert(saves.deep_view() =~= start.saves.drop_first());
        self.saves = saves;
        let path = &first.path;
        assert(path@ == start.saves[0].path);
        let ghost before = self@;
        match step {
            ResyncStep::Done => {
                let ghost all = self.remaining.deep_view();
                let mut left: Vec<String> = Vec::new();
                let mut i: usize = 0;
                proof {
                    reveal(Seq::filter);
                    assert(all.take(0) =~= Seq::<Seq<char>>::empty());
                    assert(left.deep_view() =~= Seq::<Seq<char>>::empty());
                }
                while i < self.remaining.len()
                    invariant
                        i <= self.remaining.len(),
                        all == self.remaining.deep_view(),
                        left.deep_view() == other_paths(all.take(i as int), path@),
                        self@ == before,
                    decreases self.remaining.len() - i,
                {
                    let ghost kept = left.deep_view();
                    proof {
                        let next = all.take(i + 1);
                        assert(next.drop_last() =~= all.take(i as int));
                        assert(next.last() == all[i as int]);
                        reveal(Seq::filter);
                    }
                    if self.remaining[i] != *path {
                        left.push(self.remaining[i].clone());
                        assert(left.deep_view() =~= kept.push(all[i as int]));
                    }
                    i = i + 1;
                }
                assert(all.take(i as int) =~= all);
                let count: usize = left.len();
                self.index = 0;
                self.remaining = left;
                self.index = count;
            },
            _ => {},
        }
    }

    /// The paths that go back on the queue.
    pub fn into_remaining(self) -> (r: Vec<String>)
        ensures
            r.deep_view() == self@.remaining,
    {
        self.remaining
    }
}

/// A path leaves the drain only when it is done: whatever else it comes to, it
/// goes back on the queue.
pub proof fn law_only_finished_paths_leave_the_queue(d: DrainView, step: StepView)
    requires
        !d.stopped,
        d.index < d.remaining.len(),
    ensures
        !(step is Done) ==> drained(d, step).remaining == d.remaining,
        forall|i: int|
            0 <= i < d.remaining.len() && i != d.index ==> drained(d, step).remaining.contains(
                #[trigger] d.remaining[i],
            ),
        !(step is Done) ==> drained_save(d, step).remaining == d.remaining,
{
    let after = drained(d, step).remaining;
    assert forall|i: int| 0 <= i < d.remaining.len() && i != d.index implies after.contains(
        #[trigger] d.remaining[i],
    ) by {
        if step is Done {
            let j = if i < d.index { i } else { i - 1 };
            assert(after[j] == d.remaining[i]);
        } else {
            assert(after[i] == d.remaining[i]);
        }
    }
}

/// A broken connection ends the drain: nothing is taken off the queue after it.
pub proof fn law_a_broken_connection_keeps_the_rest_queued(d: DrainView)
    ensures
        drained(d, StepView::NotifyFailed).stopped,
        drained(d, StepView::NotifyFailed).remaining == d.remaining,
{
}

/// All content goes out before any save: a save is due only once no path waits
/// for its content, and from then on none does.
pub proof fn law_content_goes_before_any_save(d: DrainView, step: StepView)
    requires
        d.index <= d.remaining.len(),
        drain_next(d) is Save,
    ensures
        d.index == d.remaining.len(),
        drained_save(d, step).index == drained_save(d, step).remaining.len(),
        drain_next(drained_save(d, step)) !is Sync,
{
}

/// A drain of `paths` before anything was done.
pub open spec fn drain_start(paths: Seq<Seq<char>>) -> DrainView {
    DrainView { remaining: paths, index: 0, saves: Seq::empty(), stopped: false }
}

/// A drain whose paths came to one step after the other.
pub open spec fn drained_all(d: DrainView, steps: Seq<StepView>) -> DrainView
    decreases steps.len(),
{
    if steps.len() == 0 {
        d
    } else {
        drained(drained_all(d, steps.drop_last()), steps.last())
    }
}

/// A drain of which `n` saves succeeded.
pub open spec fn saved(d: DrainView, n: nat) -> DrainView
    decreases n,
{
    if n == 0 {
        d
    } else {
        drained_save(saved(d, (n - 1) as nat), StepView::Done)
    }
}

/// Where the content of every path is sent, each path is owed exactly one save,
/// in the order of the paths.
pub proof fn law_each_path_is_saved_once(paths: Seq<Seq<char>>, steps: Seq<StepView>)
    requires
        steps.len() <= paths.len(),
        forall|i: int| 0 <= i < steps.len() ==> (#[trigger] steps[i]) is NeedsSave,
    ensures
        ({
            let d = drained_all(drain_start(paths), steps);
            &&& d.remaining == paths
            &&& d.index == steps.len()
            &&& !d.stopped
            &&& d.saves.len() == steps.len()
            &&& forall|i: int|
                0 <= i < steps.len() ==> (#[trigger] d.saves[i]).path == paths[i] && steps[i]
                    == (StepView::NeedsSave {
                    version: d.saves[i].version,
                    servers: d.saves[i].servers,
                })
        }),
    decreases steps.len(),
{
    if steps.len() > 0 {
        let init = steps.drop_last();
        assert forall|i: int| 0 <= i < init.len() implies (#[trigger] init[i]) is NeedsSave by {
            assert(init[i] == steps[i]);
        }
        law_each_path_is_saved_once(paths, init);
        assert(steps.last() == steps[steps.len() - 1]);
        let before = drained_all(drain_start(paths), init);
        let d = drained_all(drain_start(paths), steps);
        assert forall|i: int| 0 <= i < steps.len() implies (#[trigger] d.saves[i]).path == paths[i]
            && steps[i] == (StepView::NeedsSave {
            version: d.saves[i].version,
            servers: d.saves[i].servers,
        }) by {
            if i < init.len() {
                assert(before.saves[i].path == paths[i]);
                assert(init[i] == steps[i]);
            }
        }
    }
}

proof fn lemma_other_paths(paths: Seq<Seq<char>>, path: Seq<char>, p: Seq<char>)
    ensures
        other_paths(paths, path).contains(p) ==> paths.contains(p) && p != path,
    decreases paths.len(),
{
    reveal(Seq::filter);
    let left = other_paths(paths, path);
    if paths.len() > 0 && left.contains(p) {
        let init = paths.drop_last();
        lemma_other_paths(init, path, p);
        let part = other_paths(init, path);
        let at = choose|j: int| 0 <= j < left.len() && left[j] == p;
        if at < part.len() {
            assert(part[at] == p);
            let j = choose|j: int| 0 <= j < init.len() && init[j] == p;
            assert(paths[j] == p);
        } else {
            assert(paths[paths.len() - 1] == p);
        }
    }
}

proof fn lemma_saved(d: DrainView, n: nat)
    requires
        !d.stopped,
        d.index == d.remaining.len(),
        n <= d.saves.len(),
    ensures
        ({
            let after = saved(d, n);
            &&& !after.stopped
            &&& after.saves == d.saves.skip(n as int)
            &&& after.index == after.remaining.len()
            &&& forall|p: Seq<char>| #[trigger]
                after.remaining.contains(p) ==> d.remaining.contains(p) && forall|i: int|
                    0 <= i < n ==> (#[trigger] d.saves[i]).path != p
        }),
    decreases n,
{
    if n == 0 {
        assert(d.saves.skip(0) =~= d.saves);
    } else {
        let fewer = (n - 1) as nat;
        lemma_saved(d, fewer);
        let before = saved(d, fewer);
        let after = saved(d, n);
        assert(before.saves[0] == d.saves[fewer as int]);
        assert(before.saves.drop_first() =~= d.saves.skip(n as int));
        let path = before.saves[0].path;
        assert forall|p: Seq<char>| #[trigger] after.remaining.contains(p) implies d.remaining.contains(
            p,
        ) && forall|i: int| 0 <= i < n ==> (#[trigger] d.saves[i]).path != p by {
            lemma_other_paths(before.remaining, path, p);
            assert(before.remaining.contains(p));
        }
    }
}

/// A batch whose content and saves all go through leaves the queue empty, and
/// sends each path's save exactly once.
pub proof fn law_a_good_batch_empties_the_queue(paths: Seq<Seq<char>>, steps: Seq<StepView>)
    requires
        steps.len() == paths.len(),
        forall|i: int| 0 <= i < steps.len() ==> (#[trigger] steps[i]) is NeedsSave,
    ensures
        ({
            let content = drained_all(drain_start(paths), steps);
            let end = saved(content, paths.len());
            &&& content.saves.len() == paths.len()
            &&& forall|n: nat|
                n < paths.len() ==> drain_next(#[trigger] saved(content, n)) == DrainNextView::Save(
                    content.saves[n as int],
                )
            &&& end.remaining.len() == 0
            &&& drain_next(end) == DrainNextView::Over
        }),
{
    law_each_path_is_saved_once(paths, steps);
    let content = drained_all(drain_start(paths), steps);
    assert forall|n: nat| n < paths.len() implies drain_next(#[trigger] saved(content, n))
        == DrainNextView::Save(content.saves[n as int]) by {
        lemma_saved(content, n);
    }
    lemma_saved(content, paths.len());
    let end = saved(content, paths.len());
    if end.remaining.len() > 0 {
        let p = end.remaining[0];
        assert(end.remaining.contains(p));
        let i = choose|i: int| 0 <= i < paths.len() && paths[i] == p;
        assert(content.saves[i].path == p);
    }
}

} // verus!
