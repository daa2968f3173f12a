//! A workspace symbol search, from the choice of a server to what is shown.

use crate::config::ServerId;
use crate::delivery::DiagnosticSnapshot;
use crate::error::{Error, ErrorView};
use crate::lifecycle::{ServersView, Translator};
use crate::symbols;
use crate::symbols::{
    search_error, validate_workspace_symbol_params, workspace_symbols, Candidate, CandidateView,
    NoServerReason, SymbolInformation, WorkspaceSymbol, WorkspaceSymbolView,
};
use crate::table::Key;
use vstd::prelude::*;
use vstd::string::*;

verus! {

/// How far a search has got.
#[derive(Clone, Debug, PartialEq, Eq)]
pub enum SearchState {
    /// A server is being looked for.
    Routing,
    /// This server is being started, unless it runs.
    Ensuring(ServerId),
    /// The client of this server is being looked up.
    Finding(ServerId),
    /// This server is being checked for the capability.
    Checking(ServerId),
    /// This server is being asked.
    Asking(ServerId),
    /// It is over.
    Over,
}

/// What a [`SearchState`] stands for.
pub enum StateView {
    /// A server is being looked for.
    Routing,
    /// This server is being started, unless it runs.
    Ensuring(Seq<char>),
    /// The client of this server is being looked up.
    Finding(Seq<char>),
    /// This server is being checked for the capability.
    Checking(Seq<char>),
    /// This server is being asked.
    Asking(Seq<char>),
    /// It is over.
    Over,
}

impl DeepView for SearchState {
    type V = StateView;

    open spec fn deep_view(&self) -> StateView {
        match self {
            SearchState::Routing => StateView::Routing,
            SearchState::Ensuring(id) => StateView::Ensuring(id@),
            SearchState::Finding(id) => StateView::Finding(id@),
            SearchState::Checking(id) => StateView::Checking(id@),
            SearchState::Asking(id) => StateView::Asking(id@),
            SearchState::Over => StateView::Over,
        }
    }
}

/// A server's answer: the symbols it found, each with the text of its document.
pub type Answer = Option<Vec<(SymbolInformation, DiagnosticSnapshot)>>;

/// What came of the last thing that a search asked for.
#[derive(Debug)]
pub enum SearchEvent {
    /// The server that routing gave, or why it gave none.
    Routed(Result<ServerId, NoServerReason>),
    /// Whether the server runs.
    Ensured(Result<(), Error>),
    /// Whether it has a client.
    Client(bool),
    /// Whether it answers searches.
    Capable(Result<(), Error>),
    /// Its answer.
    Answered(Result<Answer, Error>),
}

/// What a search asks for.
#[derive(Debug)]
pub enum SearchAction {
    /// A server that answers searches, other than the excluded ones.
    Route,
    /// That this server runs.
    Ensure(ServerId),
    /// Whether this server has a client.
    FindClient(ServerId),
    /// Whether this server answers searches.
    CheckCapability(ServerId),
    /// This server's answer to this query.
    Request(ServerId, String),
    /// Nothing more: it failed.
    Fail(Error),
    /// Nothing more: these are the symbols.
    Done(Vec<WorkspaceSymbol>),
    /// Nothing: the event was not awaited.
    Nothing,
}

/// What a [`SearchAction`] stands for.
pub enum ActionView {
    /// A server that answers searches, other than the excluded ones.
    Route,
    /// That this server runs.
    Ensure(Seq<char>),
    /// Whether this server has a client.
    FindClient(Seq<char>),
    /// Whether this server answers searches.
    CheckCapability(Seq<char>),
    /// This server's answer to this query.
    Request(Seq<char>, Seq<char>),
    /// Nothing more: it failed.
    Fail(ErrorView),
    /// Nothing more: these are the symbols.
    Done(Seq<WorkspaceSymbolView>),
    /// Nothing: the event was not awaited.
    Nothing,
}

impl DeepView for SearchAction {
    type V = ActionView;

    open spec fn deep_view(&self) -> ActionView {
        match self {
            SearchAction::Route => ActionView::Route,
            SearchAction::Ensure(id) => ActionView::Ensure(id@),
            SearchAction::FindClient(id) => ActionView::FindClient(id@),
            SearchAction::CheckCapability(id) => ActionView::CheckCapability(id@),
            SearchAction::Request(id, query) => ActionView::Request(id@, query@),
            SearchAction::Fail(e) => ActionView::Fail(e.deep_view()),
            SearchAction::Done(list) => ActionView::Done(list.deep_view()),
            SearchAction::Nothing => ActionView::Nothing,
        }
    }
}

/// A search.
#[derive(Clone, Debug, PartialEq, Eq)]
pub struct Search {
    query: String,
    kind: Option<String>,
    limit: u32,
    excluded: Vec<ServerId>,
    state: SearchState,
}

/// What a [`Search`] stands for.
#[verifier::ext_equal]
pub struct SearchView {
    /// What is searched for.
    pub query: Seq<char>,
    /// The kind to show only.
    pub kind: Option<Seq<char>>,
    /// How many symbols to show at most.
    pub limit: u32,
    /// The servers that were passed over.
    pub excluded: Seq<Seq<char>>,
    /// How far it has got.
    pub state: StateView,
}

impl View for Search {
    type V = SearchView;

    closed spec fn view(&self) -> SearchView {
        SearchView {
            query: self.query@,
            kind: self.kind.deep_view(),
            limit: self.limit,
            excluded: self.excluded.deep_view(),
            state: self.state.deep_view(),
        }
    }
}

/// The symbols of an answer that a search shows.
pub open spec fn shown(s: SearchView, answer: Answer) -> Seq<WorkspaceSymbolView> {
    symbols::search_result(
        match answer {
            Some(list) => list@,
            None => Seq::empty(),
        },
        s.kind,
        s.limit,
    )
}

/// A search that is over.
pub open spec fn ended(s: SearchView, action: ActionView) -> (SearchView, ActionView) {
    (SearchView { state: StateView::Over, ..s }, action)
}

/// What a search does next. A server whose command is missing is passed over;
/// the first other one is started, found, checked and asked, in this order.
pub open spec fn search_step(v: ServersView, s: SearchView, event: SearchEvent) -> (
    SearchView,
    ActionView,
) {
    match (s.state, event) {
        (StateView::Routing, SearchEvent::Routed(Err(reason))) => match symbols::judged_candidate(
            v,
            Err(reason),
        ) {
            CandidateView::Fail(e) => ended(s, ActionView::Fail(e)),
            _ => (s, ActionView::Nothing),
        },
        (StateView::Routing, SearchEvent::Routed(Ok(id))) => match symbols::judged_candidate(
            v,
            Ok(id@),
        ) {
            CandidateView::Exclude => (
                SearchView { excluded: s.excluded.push(id@), ..s },
                ActionView::Route,
            ),
            _ => (SearchView { state: StateView::Ensuring(id@), ..s }, ActionView::Ensure(id@)),
        },
        (StateView::Ensuring(id), SearchEvent::Ensured(Ok(()))) => (
            SearchView { state: StateView::Finding(id), ..s },
            ActionView::FindClient(id),
        ),
        (StateView::Ensuring(_), SearchEvent::Ensured(Err(e))) => ended(
            s,
            ActionView::Fail(symbols::start_error(e.deep_view())),
        ),
        (StateView::Finding(id), SearchEvent::Client(true)) => (
            SearchView { state: StateView::Checking(id), ..s },
            ActionView::CheckCapability(id),
        ),
        (StateView::Finding(id), SearchEvent::Client(false)) => ended(
            s,
            ActionView::Fail(symbols::missing_client(v, id)),
        ),
        (StateView::Checking(id), SearchEvent::Capable(Ok(()))) => (
            SearchView { state: StateView::Asking(id), ..s },
            ActionView::Request(id, s.query),
        ),
        (StateView::Checking(_), SearchEvent::Capable(Err(e))) => ended(
            s,
            ActionView::Fail(e.deep_view()),
        ),
        (StateView::Asking(_), SearchEvent::Answered(Err(e))) => ended(
            s,
            ActionView::Fail(e.deep_view()),
        ),
        (StateView::Asking(_), SearchEvent::Answered(Ok(answer))) => ended(
            s,
            ActionView::Done(shown(s, answer)),
        ),
        _ => (s, ActionView::Nothing),
    }
}

impl Search {
    /// A search that has asked for a server. Fails where its parameters are
    /// wrong, before any server is looked for.
    pub fn new(query: &str, kind_filter: Option<String>, limit: u32) -> (r: Result<Self, Error>)
        ensures
            match r {
                Ok(search) => {
                    &&& symbols::symbol_params_error(query@, kind_filter.deep_view()) is None
                    &&& search@ == (SearchView {
                        query: query@,
                        kind: kind_filter.deep_view(),
                        limit,
                        excluded: Seq::empty(),
                        state: StateView::Routing,
                    })
                },
                Err(e) => symbols::symbol_params_error(query@, kind_filter.deep_view()) == Some(
                    e.deep_view(),
                ),
            },
    {
        let checked = {
            let kind = match &kind_filter {
                Some(kind) => Some(kind.as_str()),
                None => None,
            };
            validate_workspace_symbol_params(query, kind)
        };
        match checked {
            Err(e) => Err(e),
            Ok(()) => {
                let search = Search {
                    query: query.to_owned(),
                    kind: kind_filter,
                    limit,
                    excluded: Vec::new(),
                    state: SearchState::Routing,
                };
                assert(search.excluded.deep_view() =~= Seq::<Seq<char>>::empty());
                Ok(search)
            },
        }
    }

    /// What is searched for.
    pub fn query(&self) -> (r: &String)
        ensures
            r@ == self@.query,
    {
        &self.query
    }

    /// The servers that were passed over.
    pub fn excluded(&self) -> (r: &Vec<ServerId>)
        ensures
            r.deep_view() == self@.excluded,
    {
        &self.excluded
    }
}

impl Translator {
    /// What a search does next, given what came of the last thing it asked for.
    pub fn handle_workspace_symbol(&self, search: &mut Search, event: SearchEvent) -> (r:
        SearchAction)
        ensures
            (final(search)@, r.deep_view()) == search_step(self@, old(search)@, event),
    {
        let mut state = SearchState::Over;
        std::mem::swap(&mut state, &mut search.state);
        match (state, event) {
            (SearchState::Routing, SearchEvent::Routed(Err(reason))) => {
                match self.workspace_candidate(Err(reason)) {
                    Candidate::Fail(e) => SearchAction::Fail(e),
                    _ => {
                        search.state = SearchState::Routing;
                        SearchAction::Nothing
                    },
                }
            },
            (SearchState::Routing, SearchEvent::Routed(Ok(id))) => {
                match self.workspace_candidate(Ok(&id)) {
                    Candidate::Exclude => {
                        let ghost before = search.excluded.deep_view();
                        let ghost name = id@;
                        search.excluded.push(id);
                        assert(search.excluded.deep_view() =~= before.push(name));
                        search.state = SearchState::Routing;
                        SearchAction::Route
                    },
                    _ => {
                        search.state = SearchState::Ensuring(id.dup());
                        SearchAction::Ensure(id)
                    },
                }
            },
            (SearchState::Ensuring(id), SearchEvent::Ensured(Ok(()))) => {
                search.state = SearchState::Finding(id.dup());
                SearchAction::FindClient(id)
            },
            (SearchState::Ensuring(_), SearchEvent::Ensured(Err(e))) => SearchAction::Fail(
                search_error(e),
            ),
            (SearchState::Finding(id), SearchEvent::Client(true)) => {
                search.state = SearchState::Checking(id.dup());
                SearchAction::CheckCapability(id)
            },
            (SearchState::Finding(id), SearchEvent::Client(false)) => SearchAction::Fail(
                self.missing_client_error(&id),
            ),
            (SearchState::Checking(id), SearchEvent::Capable(Ok(()))) => {
                search.state = SearchState::Asking(id.dup());
                SearchAction::Request(id, search.query.clone())
            },
            (SearchState::Checking(_), SearchEvent::Capable(Err(e))) => SearchAction::Fail(e),
            (SearchState::Asking(_), SearchEvent::Answered(Err(e))) => SearchAction::Fail(e),
            (SearchState::Asking(_), SearchEvent::Answered(Ok(answer))) => {
                let found = match answer {
                    Some(found) => found,
                    None => Vec::new(),
                };
                let kind = match &search.kind {
                    Some(kind) => Some(kind.as_str()),
                    None => None,
                };
                SearchAction::Done(workspace_symbols(&found, kind, search.limit))
            },
            (state, _) => {
                search.state = state;
                SearchAction::Nothing
            },
        }
    }
}

/// Only a server whose command is missing is passed over, and once a server was
/// chosen no other one is.
pub proof fn law_one_server_is_searched(v: ServersView, s: SearchView, event: SearchEvent)
    ensures
        search_step(v, s, event).0.excluded != s.excluded ==> s.state == StateView::Routing && (
        event matches SearchEvent::Routed(Ok(id)) && crate::lifecycle::is_in(
            v,
            id@,
            crate::lifecycle::ServerLifecycle::NotInstalled,
        )),
        search_step(v, s, event).1 is Ensure ==> s.state == StateView::Routing,
        search_step(v, s, event).1 is Request ==> s.state is Checking,
{
}

/// What is searched for stays what was checked, and that is what the server is
/// asked.
pub proof fn law_the_checked_query_is_asked(v: ServersView, s: SearchView, event: SearchEvent)
    ensures
        search_step(v, s, event).0.query == s.query,
        search_step(v, s, event).0.kind == s.kind,
        search_step(v, s, event).0.limit == s.limit,
        search_step(v, s, event).1 matches ActionView::Request(id, query) ==> query == s.query
            && s.state == StateView::Checking(id),
{
}

/// A search that has ended asks for nothing more.
pub proof fn law_an_ended_search_stays_ended(v: ServersView, s: SearchView, event: SearchEvent)
    requires
        s.state == StateView::Over,
    ensures
        search_step(v, s, event) == (s, ActionView::Nothing),
{
}

} // verus!
