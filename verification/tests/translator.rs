use mcpls_core::config::{DiagnosticsConfig, LspServerConfig, ServerId, SeverityFloor};
use mcpls_core::delivery::DiagnosticSnapshot;
use mcpls_core::diagnostics::{self, Position};
use mcpls_core::encoding::{position_encoding_for, PositionEncoding};
use mcpls_core::error::Error;
use mcpls_core::floors::FloorTable;
use mcpls_core::lifecycle::{ServerLifecycle, Translator};
use mcpls_core::reply::lsp_to_mcp_position;
use mcpls_core::resync::{
    close_notices, judge_sent_save, notify_watched_files, open_untracked_document, prepare_save,
    resync_one_document, save_resynced_document, send_resync_changes, DrainNext, OpenOutcome, Presence, Reread,
    ResyncDrain,
    ResyncNext, ResyncSeen, ResyncStep, Route, SaveNext, SaveResult, SaveState, SavesNext, SendNext,
    WatchKind,
};
use mcpls_core::search::{Search, SearchAction, SearchEvent};
use mcpls_core::symbols::{
    handle_document_symbols, search_error, validate_workspace_symbol_params, workspace_symbols,
    Candidate, DocumentSymbol, DocumentSymbolResponse, NoServerReason, SymbolInformation,
    MAX_QUERY_LENGTH,
};
use mcpls_core::user_control::{targets, RestartNext};

fn id(name: &str) -> ServerId {
    ServerId::from(name)
}

fn texts(list: &[&str]) -> Vec<String> {
    list.iter().map(|s| s.to_string()).collect()
}

fn search(kind: Option<&str>, limit: u32) -> Search {
    Search::new("query", kind.map(|k| k.to_string()), limit).unwrap()
}

fn failure(action: SearchAction) -> Error {
    match action {
        SearchAction::Fail(error) => error,
        other => panic!("the search went on with {other:?}"),
    }
}

#[test]
fn test_handle_workspace_symbol_no_server() {
    let translator = Translator::new();
    let event = SearchEvent::Routed(Err(NoServerReason::NothingRegistered));
    assert_eq!(
        failure(translator.handle_workspace_symbol(&mut search(None, 100), event)),
        Error::NoServerConfigured
    );
}

#[test]
fn test_handle_workspace_symbol_reports_initializing_while_server_is_starting() {
    let mut translator = Translator::new();
    translator.set_lifecycle(&id("pyright"), ServerLifecycle::Starting);
    let event = SearchEvent::Routed(Err(NoServerReason::NothingRegistered));
    assert_eq!(
        failure(translator.handle_workspace_symbol(&mut search(None, 100), event)),
        Error::WorkspaceServersInitializing
    );
}

#[test]
fn test_handle_workspace_symbol_no_claimant_names_tool() {
    let translator = Translator::new();
    let event = SearchEvent::Routed(Err(NoServerReason::NoClaimant));
    assert_eq!(
        failure(translator.handle_workspace_symbol(&mut search(None, 100), event)),
        Error::NoServerForWorkspaceTool {
            tool: "workspace_symbols".to_string()
        }
    );
}

#[test]
fn workspace_symbol_skips_missing_binary_and_starts_only_the_next_claimant() {
    let mut translator = Translator::new();
    translator.set_lifecycle(&id("python-missing"), ServerLifecycle::NotInstalled);
    translator.set_lifecycle(&id("typescript-idle"), ServerLifecycle::Idle);
    translator.set_lifecycle(&id("lua-unused"), ServerLifecycle::Idle);

    assert_eq!(
        translator.workspace_candidate(Ok(&id("python-missing"))),
        Candidate::Exclude
    );
    assert_eq!(
        translator.workspace_candidate(Ok(&id("typescript-idle"))),
        Candidate::Ask
    );
    let mut search = search(None, 100);
    let event = SearchEvent::Routed(Ok(id("python-missing")));
    assert!(matches!(
        translator.handle_workspace_symbol(&mut search, event),
        SearchAction::Route
    ));
    assert_eq!(search.excluded(), &vec![id("python-missing")]);
    let event = SearchEvent::Routed(Ok(id("typescript-idle")));
    let SearchAction::Ensure(started) = translator.handle_workspace_symbol(&mut search, event)
    else {
        panic!("the next claimant is started");
    };
    assert_eq!(started, id("typescript-idle"));
    assert_eq!(search.excluded(), &vec![id("python-missing")]);
    assert_eq!(
        translator.lifecycle_of(&id("lua-unused")),
        Some(ServerLifecycle::Idle)
    );
}

fn asked(translator: &Translator, kind: Option<&str>, limit: u32) -> Search {
    let mut search = search(kind, limit);
    let events = vec![
        SearchEvent::Routed(Ok(id("rust"))),
        SearchEvent::Ensured(Ok(())),
        SearchEvent::Client(true),
    ];
    for event in events {
        let action = translator.handle_workspace_symbol(&mut search, event);
        assert!(!matches!(
            action,
            SearchAction::Nothing | SearchAction::Fail(_) | SearchAction::Request(..)
        ));
    }
    let action = translator.handle_workspace_symbol(&mut search, SearchEvent::Capable(Ok(())));
    let SearchAction::Request(server, query) = action else {
        panic!("the server is asked");
    };
    assert_eq!((server, query.as_str()), (id("rust"), "query"));
    assert_eq!(search.query(), "query");
    search
}

#[test]
fn a_search_asks_one_server_and_shows_its_answer() {
    let translator = Translator::new();
    let mut search = asked(&translator, Some("function"), 1);
    let answer = vec![
        (information("A", "Struct"), snapshot("struct A;\n")),
        (information("f", "Function"), snapshot("fn f() {}\n")),
        (information("g", "Function"), snapshot("fn g() {}\n")),
    ];
    let SearchAction::Done(shown) =
        translator.handle_workspace_symbol(&mut search, SearchEvent::Answered(Ok(Some(answer))))
    else {
        panic!("the answer ends the search");
    };
    assert_eq!(shown.len(), 1);
    assert_eq!(shown[0].name, "f");
    assert!(matches!(
        translator.handle_workspace_symbol(&mut search, SearchEvent::Answered(Ok(None))),
        SearchAction::Nothing
    ));

    let mut search = asked(&translator, None, 100);
    let action =
        translator.handle_workspace_symbol(&mut search, SearchEvent::Answered(Ok(None)));
    assert!(matches!(action, SearchAction::Done(shown) if shown.is_empty()));
}

#[test]
fn a_search_fails_where_its_server_does() {
    let mut translator = Translator::new();
    let starting = || Error::ServerInitializing { server_id: "rust".to_string() };
    let mut waiting = search(None, 100);
    translator.handle_workspace_symbol(&mut waiting, SearchEvent::Routed(Ok(id("rust"))));
    assert_eq!(
        failure(translator.handle_workspace_symbol(
            &mut waiting,
            SearchEvent::Ensured(Err(starting()))
        )),
        Error::WorkspaceServersInitializing
    );

    translator.set_lifecycle(&id("rust"), ServerLifecycle::Failed);
    let mut lost = search(None, 100);
    translator.handle_workspace_symbol(&mut lost, SearchEvent::Routed(Ok(id("rust"))));
    translator.handle_workspace_symbol(&mut lost, SearchEvent::Ensured(Ok(())));
    let error = failure(translator.handle_workspace_symbol(&mut lost, SearchEvent::Client(false)));
    assert!(
        matches!(error, Error::ServerUnavailable { reason, .. } if reason == "failed to start")
    );

    let mut refused = asked(&Translator::new(), None, 100);
    let error = failure(translator.handle_workspace_symbol(
        &mut refused,
        SearchEvent::Answered(Err(Error::NoServerConfigured)),
    ));
    assert_eq!(error, Error::NoServerConfigured);
    assert!(Search::new("query", Some("Nonsense".to_string()), 1).is_err());
}

#[test]
fn a_chosen_server_without_a_client_says_why() {
    let mut translator = Translator::new();
    let rust = id("rust");
    assert_eq!(
        translator.missing_client_error(&rust),
        Error::NoServerConfigured
    );
    translator.set_lifecycle(&rust, ServerLifecycle::Starting);
    let initializing = translator.missing_client_error(&rust);
    assert_eq!(
        initializing,
        Error::ServerInitializing { server_id: "rust".to_string() }
    );
    assert_eq!(
        search_error(initializing),
        Error::WorkspaceServersInitializing
    );
    translator.set_lifecycle(&rust, ServerLifecycle::Failed);
    let Error::ServerUnavailable { reason, .. } = translator.missing_client_error(&rust) else {
        panic!("a failed server is unavailable");
    };
    assert_eq!(reason, "failed to start");
}

fn range(start: u32, end: u32) -> diagnostics::Range {
    diagnostics::Range {
        start: Position { line: 0, character: start },
        end: Position { line: 0, character: end },
    }
}

fn snapshot(text: &str) -> DiagnosticSnapshot {
    DiagnosticSnapshot {
        uri: "file:///main.rs".to_string(),
        encoding: PositionEncoding::Utf8,
        text: Some(text.to_string()),
    }
}

fn information(name: &str, kind: &str) -> SymbolInformation {
    SymbolInformation {
        name: name.to_string(),
        kind: kind.to_string(),
        uri: "file:///main.rs".to_string(),
        range: range(0, 12),
        container_name: None,
    }
}

#[test]
fn test_handle_document_symbols_flat_response_selection_range_matches_range() {
    let response = Some(DocumentSymbolResponse::Flat(vec![(
        information("main", "Function"),
        snapshot("fn main() {}\n"),
    )]));
    let symbols = handle_document_symbols(&response, &snapshot("fn main() {}\n"));
    assert_eq!(symbols.len(), 1);
    assert_eq!(symbols[0].name, "main");
    assert_eq!(symbols[0].range, symbols[0].selection_range);
    assert_eq!(symbols[0].range.end.character, 13);
}

#[test]
fn nested_symbols_are_shown_with_those_they_contain() {
    let leaf = |name: &str| DocumentSymbol {
        name: name.to_string(),
        kind: "Field".to_string(),
        range: range(0, 4),
        selection_range: range(0, 4),
        children: None,
    };
    let response = Some(DocumentSymbolResponse::Nested(vec![DocumentSymbol {
        children: Some(vec![leaf("a"), leaf("b")]),
        ..leaf("outer")
    }]));
    let symbols = handle_document_symbols(&response, &snapshot("\u{1f600}x"));
    let children = symbols[0].children.as_ref().unwrap();
    assert_eq!(children[1].name, "b");
    assert_eq!(children[1].range.end.character, 3);
    assert!(handle_document_symbols(&None, &snapshot("")).is_empty());
}

#[test]
fn a_search_keeps_the_kind_and_the_limit() {
    let found: Vec<_> = [("a", "Function"), ("b", "Struct"), ("c", "function"), ("d", "Function")]
        .iter()
        .map(|(name, kind)| (information(name, kind), snapshot("fn main() {}\n")))
        .collect();
    let names = |kind, limit| -> Vec<String> {
        workspace_symbols(&found, kind, limit)
            .into_iter()
            .map(|s| s.name)
            .collect()
    };
    assert_eq!(names(None, 100), ["a", "b", "c", "d"]);
    assert_eq!(names(Some("FUNCTION"), 100), ["a", "c", "d"]);
    assert_eq!(names(Some("FUNCTION"), 2), ["a", "c"]);
}

#[test]
fn the_parameters_of_a_search_are_checked() {
    assert!(validate_workspace_symbol_params(&"q".repeat(MAX_QUERY_LENGTH), None).is_ok());
    assert_eq!(
        validate_workspace_symbol_params(&"q".repeat(MAX_QUERY_LENGTH + 1), None),
        Err(Error::InvalidToolParams(
            "Query too long: 1001 bytes (max 1000)".to_string()
        ))
    );
    assert!(validate_workspace_symbol_params("q", Some("sTruct")).is_ok());
    let Err(Error::InvalidToolParams(message)) =
        validate_workspace_symbol_params("q", Some("Thing"))
    else {
        panic!("an unknown kind is refused");
    };
    assert!(
        message.starts_with("Invalid kind_filter: 'Thing'. Valid values: [\"File\", "),
        "{message}"
    );
}

#[test]
fn test_a_rewritten_file_gets_a_change_then_a_save() {
    let servers = vec![(id("rust"), 1)];
    let steps = [
        (
            ResyncSeen::Routed { routed: true, synced: true, presence: Presence::Present },
            ResyncNext::Lock,
        ),
        (
            ResyncSeen::Locked { presence: Presence::Present },
            ResyncNext::Reread,
        ),
        (
            ResyncSeen::Reread(Reread::Refreshed),
            ResyncNext::ListServers,
        ),
        (
            ResyncSeen::Held { servers: Some(servers.clone()), routed: Some((id("rust"), 1)) },
            ResyncNext::Send(servers.clone()),
        ),
        (
            ResyncSeen::Sent { ok: true, version: 2, servers: servers.clone() },
            ResyncNext::Finish {
                close: false,
                watch: None,
                step: ResyncStep::NeedsSave { version: 2, servers },
            },
        ),
    ];
    for (seen, next) in steps {
        assert_eq!(resync_one_document(seen), next);
    }
}

#[test]
fn test_a_file_the_apply_deleted_is_closed() {
    assert_eq!(
        resync_one_document(ResyncSeen::Locked { presence: Presence::Absent }),
        ResyncNext::Finish {
            close: true,
            watch: Some(WatchKind::Deleted),
            step: ResyncStep::Done,
        }
    );
}

#[test]
fn test_resync_opens_an_untracked_routed_path() {
    assert_eq!(
        resync_one_document(ResyncSeen::Routed {
            routed: true,
            synced: false,
            presence: Presence::Present,
        }),
        ResyncNext::Open
    );
    assert_eq!(open_untracked_document(Route::Found, true), None);
}

#[test]
fn test_resync_retains_unopened_targets_at_the_document_limit() {
    assert_eq!(
        open_untracked_document(Route::Found, false),
        Some(OpenOutcome::NoHeadroom)
    );
    assert_eq!(
        open_untracked_document(Route::Initializing, true),
        Some(OpenOutcome::Failed)
    );
    assert_eq!(
        resync_one_document(ResyncSeen::Opened {
            outcome: OpenOutcome::NoHeadroom,
            held: false,
        }),
        ResyncNext::Finish {
            close: false,
            watch: Some(WatchKind::Changed),
            step: ResyncStep::Deferred,
        }
    );
}

#[test]
fn test_resync_keeps_watches_for_non_routable_paths() {
    assert_eq!(
        open_untracked_document(Route::Nowhere, true),
        Some(OpenOutcome::NoRoute)
    );
    assert_eq!(
        resync_one_document(ResyncSeen::Opened { outcome: OpenOutcome::NoRoute, held: false }),
        ResyncNext::Finish {
            close: false,
            watch: Some(WatchKind::Changed),
            step: ResyncStep::Done,
        }
    );
}

#[test]
fn test_a_stat_error_leaves_the_document_tracked_and_queued() {
    assert_eq!(
        resync_one_document(ResyncSeen::Locked { presence: Presence::Unknown }),
        ResyncNext::Finish { close: false, watch: None, step: ResyncStep::Deferred }
    );
}

#[test]
fn the_routed_server_comes_last_with_its_own_process() {
    let held = vec![(id("rust"), 1), (id("other"), 5)];
    assert_eq!(
        resync_one_document(ResyncSeen::Held {
            servers: Some(held),
            routed: Some((id("rust"), 2)),
        }),
        ResyncNext::Send(vec![(id("other"), 5), (id("rust"), 2)])
    );
}

#[test]
fn a_change_is_sent_to_those_that_lack_it_until_one_cannot_be_reached() {
    let servers = vec![(id("a"), 1), (id("b"), 2), (id("c"), 3)];
    let needs = vec![id("c"), id("a")];
    let next = |results: &[bool]| send_resync_changes(&servers, &needs, &results.to_vec());
    assert_eq!(next(&[]), SendNext::Change(id("a"), 1));
    assert_eq!(next(&[true]), SendNext::Change(id("c"), 3));
    assert_eq!(next(&[true, true]), SendNext::AllSent);
    assert_eq!(next(&[false]), SendNext::Broken);
}

#[test]
fn a_prepared_save_is_sent_once_and_only_while_it_is_current() {
    let state = |version, synced, saved, generation| {
        Some(SaveState { version, synced, saved, generation })
    };
    assert_eq!(
        prepare_save(2, 1, state(2, Some(2), None, 1)),
        SaveNext::Send
    );
    assert_eq!(
        prepare_save(2, 1, state(2, Some(2), Some(2), 1)),
        SaveNext::Skip
    );
    assert_eq!(
        prepare_save(2, 1, state(3, Some(3), None, 1)),
        SaveNext::Stale
    );
    assert_eq!(
        prepare_save(2, 1, state(2, Some(2), None, 9)),
        SaveNext::Stale
    );
    assert_eq!(prepare_save(2, 1, None), SaveNext::Stale);
}

#[test]
fn saves_go_out_in_order_and_the_watchers_come_last() {
    let servers = vec![(id("a"), 1), (id("b"), 2)];
    let next = |results: &[SaveResult]| save_resynced_document(&servers, &results.to_vec());
    let failed = |step| SavesNext::Finish { watch: None, step };
    assert_eq!(next(&[]), SavesNext::Tell(id("a"), 1));
    assert_eq!(next(&[SaveResult::Known]), SavesNext::Tell(id("b"), 2));
    assert_eq!(
        next(&[SaveResult::Known, SaveResult::Known]),
        SavesNext::Finish {
            watch: Some(WatchKind::Changed),
            step: ResyncStep::Done
        }
    );
    assert_eq!(
        next(&[SaveResult::Known, SaveResult::Stale]),
        failed(ResyncStep::Deferred)
    );
    assert_eq!(
        next(&[SaveResult::NotSent]),
        failed(ResyncStep::NotifyFailed)
    );
}

#[test]
fn test_a_failed_notify_marks_nothing_and_stays_queued() {
    let mut drain = ResyncDrain::new(texts(&["a", "b", "c"]));
    assert_eq!(drain.next(), DrainNext::Sync("a".to_string()));
    drain.record(ResyncStep::Done);
    assert_eq!(drain.next(), DrainNext::Sync("b".to_string()));
    drain.record(ResyncStep::NotifyFailed);
    assert!(drain.is_stopped());
    assert_eq!(drain.into_remaining(), texts(&["b", "c"]));
}

#[test]
fn test_a_read_failure_leaves_only_that_path_queued_behind_it() {
    let mut drain = ResyncDrain::new(texts(&["a", "b"]));
    drain.record(ResyncStep::Deferred);
    drain.record(ResyncStep::NeedsSave { version: 1, servers: vec![(id("rust"), 1)] });
    let DrainNext::Save(owed) = drain.next() else {
        panic!("the save comes once no path waits");
    };
    assert_eq!(owed.path, "b");
    drain.record_save(ResyncStep::Done);
    assert_eq!(drain.next(), DrainNext::Over);
    assert_eq!(drain.into_remaining(), texts(&["a"]));
}

#[test]
fn a_batch_sends_all_content_before_any_save() {
    let mut drain = ResyncDrain::new(texts(&["a", "b"]));
    let mut order = vec![];
    loop {
        match drain.next() {
            DrainNext::Sync(path) => {
                order.push(format!("content {path}"));
                drain.record(ResyncStep::NeedsSave { version: 1, servers: vec![] });
            }
            DrainNext::Save(owed) => {
                order.push(format!("save {}", owed.path));
                drain.record_save(ResyncStep::Done);
            }
            DrainNext::Over => break,
        }
    }
    assert_eq!(order, texts(&["content a", "content b", "save a", "save b"]));
    assert_eq!(drain.into_remaining(), texts(&[]));
    assert_eq!(judge_sent_save(true, 1, 1), SaveResult::Known);
    assert_eq!(judge_sent_save(true, 1, 2), SaveResult::Stale);
    assert_eq!(judge_sent_save(false, 1, 1), SaveResult::NotSent);
}

#[test]
fn test_a_second_drain_sends_the_save_a_cancellation_lost() {
    let mut drain = ResyncDrain::new(texts(&["a"]));
    drain.record(ResyncStep::NeedsSave { version: 1, servers: vec![] });
    assert_eq!(
        drain.into_remaining(),
        texts(&["a"]),
        "a path whose save was not sent stays queued"
    );
}

#[test]
fn each_watcher_is_told_once_under_the_first_kind_it_takes() {
    let told = notify_watched_files(&vec![
        (WatchKind::Created, vec![id("a")]),
        (WatchKind::Changed, vec![id("a"), id("b")]),
    ]);
    assert_eq!(
        told,
        vec![
            (id("a"), WatchKind::Created),
            (id("b"), WatchKind::Changed),
        ]
    );
    assert!(notify_watched_files(&vec![]).is_empty());
}

#[test]
fn an_action_is_for_those_named_or_for_all() {
    let applicable = || texts(&["python", "rust"]);
    assert_eq!(targets(vec![], applicable()), Ok(applicable()));
    assert_eq!(
        targets(texts(&["rust"]), applicable()),
        Ok(texts(&["rust"]))
    );
    assert_eq!(
        targets(texts(&["go", "rust", "c"]), applicable()),
        Err("no language server named go, c applies here; these do: python, rust".to_string())
    );
    assert_eq!(
        targets(texts(&["go"]), vec![]),
        Err("no language server named go applies here; none do".to_string())
    );
}

#[test]
fn a_user_stops_starts_and_restarts_servers() {
    let mut translator = Translator::new();
    let rust = id("rust");
    translator.set_lifecycle(&rust, ServerLifecycle::Running);
    translator.stop_server(&rust);
    assert_eq!(translator.lifecycle_of(&rust), Some(ServerLifecycle::Stopped));
    assert!(!translator.begin_starting(&rust));
    translator.start_server(&rust);
    assert!(translator.begin_starting(&rust));
    assert_eq!(
        translator.restart_server(&rust, true, true),
        RestartNext::Nothing,
        "a spawn is in flight"
    );
    translator.finish_spawn(&rust, ServerLifecycle::Running);
    assert_eq!(
        translator.restart_server(&rust, true, true),
        RestartNext::Spawn
    );
    assert_eq!(
        translator.restart_server(&rust, false, true),
        RestartNext::Start
    );
    assert_eq!(translator.applicable(), texts(&["rust"]));
    assert_eq!(
        translator.states_of(&texts(&["rust", "go"])),
        vec![("rust".to_string(), ServerLifecycle::Starting)]
    );
}

#[test]
fn a_floor_is_the_servers_own_or_the_general_one() {
    let config = DiagnosticsConfig::default();
    let servers = vec![
        LspServerConfig {
            language_id: "rust".to_string(),
            name: Some("ra".to_string()),
            diagnostics_severity: Some(SeverityFloor::Hint),
        },
        LspServerConfig {
            language_id: "python".to_string(),
            name: None,
            diagnostics_severity: None,
        },
    ];
    let floors = FloorTable::new(&config, &servers);
    assert_eq!(floors.for_server(&id("ra")), SeverityFloor::Hint);
    assert_eq!(floors.for_server(&id("python")), config.severity);
    assert_eq!(floors.for_server(&id("unknown")), config.severity);
}

#[test]
fn a_position_is_counted_from_one_in_sixteen_bit_units() {
    let at = |character| Position { line: 4, character };
    let shown = lsp_to_mcp_position(at(4), Some("\u{1f600}x"), PositionEncoding::Utf8);
    assert_eq!((shown.line, shown.character), (5, 3));
    let shown = lsp_to_mcp_position(at(1), Some("\u{1f600}x"), PositionEncoding::Utf32);
    assert_eq!(shown.character, 3);
    let shown = lsp_to_mcp_position(at(7), None, PositionEncoding::Utf8);
    assert_eq!(shown.character, 8);
}

#[test]
fn columns_count_sixteen_bit_units_unless_agreed_otherwise() {
    assert_eq!(position_encoding_for(Some("utf-8")), PositionEncoding::Utf8);
    assert_eq!(position_encoding_for(Some("utf-32")), PositionEncoding::Utf32);
    assert_eq!(position_encoding_for(Some("utf-7")), PositionEncoding::Utf16);
    assert_eq!(position_encoding_for(None), PositionEncoding::Utf16);
}

/// What the watchers of a path are told once its content was sent and saved.
fn told_after_save(watchers: Vec<(WatchKind, Vec<ServerId>)>) -> Vec<(ServerId, WatchKind)> {
    let servers = vec![(id("go"), 1)];
    let next = save_resynced_document(&servers, &vec![SaveResult::Known]);
    let SavesNext::Finish { watch, .. } = next else {
        panic!("every server knows");
    };
    assert_eq!(watch, Some(WatchKind::Changed));
    notify_watched_files(&watchers)
}

#[test]
fn test_a_watching_server_is_told_an_applied_file_changed() {
    assert_eq!(
        told_after_save(vec![(WatchKind::Changed, vec![id("go")])]),
        vec![(id("go"), WatchKind::Changed)]
    );
}

#[test]
fn test_a_server_that_registered_nothing_is_not_told() {
    assert_eq!(told_after_save(vec![(WatchKind::Changed, vec![])]), vec![]);
}

#[test]
fn test_a_deleted_file_is_reported_as_deleted() {
    let next = resync_one_document(ResyncSeen::Locked {
        presence: Presence::Absent,
    });
    assert_eq!(
        next,
        ResyncNext::Finish {
            close: true,
            watch: Some(WatchKind::Deleted),
            step: ResyncStep::Done
        }
    );
}

#[test]
fn test_an_untracked_applied_file_is_still_reported() {
    let next = resync_one_document(ResyncSeen::Routed {
        routed: true,
        synced: false,
        presence: Presence::Present,
    });
    assert_eq!(next, ResyncNext::Open);
    let next = resync_one_document(ResyncSeen::Opened {
        outcome: OpenOutcome::NoRoute,
        held: false,
    });
    assert_eq!(
        next,
        ResyncNext::Finish {
            close: false,
            watch: Some(WatchKind::Changed),
            step: ResyncStep::Done
        }
    );
    assert_eq!(
        told_after_save(vec![(WatchKind::Changed, vec![id("go")])]),
        vec![(id("go"), WatchKind::Changed)]
    );
}

#[test]
fn a_restart_that_cannot_spawn_leaves_the_server_failed_and_claimed() {
    let mut translator = Translator::new();
    let rust = id("rust");
    translator.set_lifecycle(&rust, ServerLifecycle::Running);
    assert_eq!(translator.restart_server(&rust, true, false), RestartNext::Nothing);
    assert_eq!(translator.lifecycle_of(&rust), Some(ServerLifecycle::Failed));
    assert!(!translator.begin_starting(&rust), "its spawn stays claimed");
    translator.abandon_spawn(&rust, ServerLifecycle::Failed);
    assert!(translator.begin_starting(&rust));
}

#[test]
fn the_servers_that_hold_a_removed_document_are_told() {
    let synced = vec![id("rust"), id("gone"), id("lint")];
    let live = vec![id("lint"), id("other"), id("rust")];
    assert_eq!(close_notices(&synced, &live), vec![id("rust"), id("lint")]);
    assert!(close_notices(&synced, &vec![]).is_empty());
    assert!(close_notices(&vec![], &live).is_empty());
}
