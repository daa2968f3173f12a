use mcpls_core::config::{DiagnosticsConfig, SeverityFloor};
use mcpls_core::delivery::{DiagnosticSnapshot, DiagnosticsDelivery, FileEntry};
use mcpls_core::diagnostics::{Diagnostic, DiagnosticSeverity, Position, Range};
use mcpls_core::encoding::PositionEncoding;
use mcpls_core::identity::{Caller, ConnectionId, RecordId, SessionId};
use mcpls_core::table::Table;

/// An arbitrary moment, in nanoseconds.
const START: u64 = 1_000_000_000_000;

const SECOND: u64 = 1_000_000_000;

fn session(name: &str) -> RecordId {
    RecordId::of_session(&SessionId::from(name.to_string()))
}

fn diagnostic(line: u32, severity: DiagnosticSeverity, message: &str) -> Diagnostic {
    Diagnostic {
        range: Range {
            start: Position { line, character: 0 },
            end: Position { line, character: 1 },
        },
        severity: Some(severity),
        code: None,
        source: None,
        message: message.to_string(),
    }
}

fn entry<'a>(key: &'a str, diagnostics: &'a [Diagnostic], floor: SeverityFloor) -> FileEntry<'a> {
    FileEntry { key, diagnostics, floor }
}

fn caller(root: &str, agent: &str) -> Caller {
    Caller {
        record: RecordId::Session(SessionId::from(agent.to_string())),
        root: Some(SessionId::from(root.to_string())),
    }
}

#[test]
fn adopted_history_does_not_block_newer_retained_reports() {
    let mut delivery = DiagnosticsDelivery::new(DiagnosticsConfig::default());
    let child = caller("root", "child");
    let anonymous = session("anonymous");
    let old = vec![diagnostic(0, DiagnosticSeverity::Error, "old")];
    let new = vec![diagnostic(0, DiagnosticSeverity::Error, "new")];
    let entries = [entry("a.rs", &old, SeverityFloor::Warning)];
    delivery.flush(&anonymous, &entries);
    delivery.record_write(&child, &["a.rs".into()]);
    delivery.stage(&child.record, &entries);
    delivery.merge_session(&anonymous, &child.record);
    let report = delivery.flush(
        &child.record,
        &[entry("a.rs", &new, SeverityFloor::Warning)],
    );
    assert_eq!(report.changed.len(), 1);
    assert_eq!(report.changed[0].diagnostics[0].message, "new");
}

#[test]
fn expired_cycles_cannot_be_acknowledged_as_replacement_cycles() {
    let mut delivery = DiagnosticsDelivery::new(DiagnosticsConfig::default());
    let first = caller("root", "a");
    let pending = caller("root", "b");
    let expired = caller("root", "c");
    let current = caller("root", "d");
    let joining = caller("root", "e");
    let old = vec![diagnostic(0, DiagnosticSeverity::Error, "old")];
    let new = vec![diagnostic(0, DiagnosticSeverity::Error, "new")];
    let entries = [entry("first.rs", &old, SeverityFloor::Warning)];
    for writer in [&first, &pending] {
        delivery.record_write(writer, &["first.rs".into()]);
    }
    delivery.flush(&first.record, &entries);
    let (_, token) = delivery.stage(&pending.record, &entries);
    delivery.record_write(&expired, &["first.rs".into()]);
    delivery.end_session(&expired.record);
    delivery.record_write(&current, &["first.rs".into()]);
    assert!(delivery.commit(&pending.record, token.unwrap()));
    delivery.record_write(&joining, &["first.rs".into()]);
    assert_eq!(
        delivery
            .flush(
                &current.record,
                &[entry("first.rs", &new, SeverityFloor::Warning)]
            )
            .changed
            .len(),
        1
    );
}

#[test]
fn late_root_resolution_preserves_an_undelivered_write_cycle() {
    let mut delivery = DiagnosticsDelivery::new(DiagnosticsConfig::default());
    let a = caller("root", "a");
    let mut b = caller("root", "b");
    let c = caller("root", "c");
    let old = vec![diagnostic(0, DiagnosticSeverity::Error, "old")];
    let new = vec![diagnostic(0, DiagnosticSeverity::Error, "new")];
    delivery.record_write(&a, &["a.rs".into()]);
    delivery.flush(&a.record, &[entry("a.rs", &old, SeverityFloor::Warning)]);
    b.root = None;
    delivery.record_write(&b, &["a.rs".into()]);
    b.root = a.root.clone();
    delivery.register_caller(&b);
    delivery.record_write(&c, &["a.rs".into()]);
    assert_eq!(
        delivery
            .flush(&b.record, &[entry("a.rs", &new, SeverityFloor::Warning)])
            .changed
            .len(),
        1
    );
}

#[test]
fn root_fallback_survives_child_ownership_and_output_caps() {
    let mut delivery = DiagnosticsDelivery::new(DiagnosticsConfig {
        max_total: 1,
        ..Default::default()
    });
    let root = caller("root", "root");
    let child = caller("root", "child");
    delivery.register_caller(&root);
    let old = vec![diagnostic(0, DiagnosticSeverity::Error, "old")];
    let entries = [
        entry("a.rs", &old, SeverityFloor::Warning),
        entry("b.rs", &old, SeverityFloor::Warning),
    ];
    let (first, _) = delivery.stage(&root.record, &entries);
    assert_eq!(first.changed[0].key, "a.rs");
    delivery.record_write(&child, &["a.rs".into(), "b.rs".into()]);
    let retry = delivery.flush(&root.record, &[]);
    assert_eq!(retry.changed.len(), 1);
    assert_eq!(retry.changed[0].key, "a.rs");
    assert_eq!(delivery.flush(&root.record, &[]).changed[0].key, "b.rs");
}

#[test]
fn a_root_arriving_after_a_hook_protects_it_and_zero_grace_expires_on_close() {
    let mut connections: u64 = 0;
    let mut delivery = DiagnosticsDelivery::new(DiagnosticsConfig {
        record_grace_ms: 0,
        ..Default::default()
    });
    let root = caller("root", "root");
    let child = caller("root", "child");
    let t = START;
    delivery.touch_hook(&child, t);
    delivery.record_write(&child, &["a.rs".into()]);
    let connection = ConnectionId::next(&mut connections);
    delivery.attach(connection, &root, t);
    delivery.expire(t + 100 * SECOND);
    assert!(delivery.is_registered(&child.record));
    delivery.close(connection, t + 100 * SECOND);
    assert!(!delivery.is_registered(&child.record));
    assert_eq!(delivery.claims(), 0);
}

#[test]
fn root_connections_and_the_child_connection_protect_pending_tokens() {
    let mut connections: u64 = 0;
    let mut delivery = DiagnosticsDelivery::new(DiagnosticsConfig::default());
    let root = caller("root", "root");
    let child = caller("root", "child");
    let one = ConnectionId::next(&mut connections);
    let two = ConnectionId::next(&mut connections);
    let own = ConnectionId::next(&mut connections);
    let now = START;
    delivery.attach(one, &root, now);
    delivery.attach(two, &root, now);
    delivery.touch_hook(&child, now);
    delivery.record_write(&child, &["a.rs".into()]);
    let errors = vec![diagnostic(0, DiagnosticSeverity::Error, "broken")];
    let (_, token) = delivery.stage(
        &child.record,
        &[entry("a.rs", &errors, SeverityFloor::Warning)],
    );
    delivery.end_root(root.root.as_ref().unwrap(), now);
    delivery.close(one, now);
    assert!(delivery.is_staged(&child.record));
    delivery.attach(own, &child, now);
    delivery.close(two, now);
    assert!(delivery.is_staged(&child.record));
    delivery.close(own, now);
    assert!(!delivery.commit(&child.record, token.unwrap()));
    assert!(!delivery.is_registered(&child.record));
    assert_eq!(delivery.claims(), 0);
}

#[test]
fn hook_only_grace_renews_and_expiry_discards_pending_reports() {
    let mut delivery = DiagnosticsDelivery::new(DiagnosticsConfig::default());
    let child = caller("root", "child");
    let t = START;
    delivery.touch_hook(&child, t);
    delivery.record_write(&child, &["a.rs".into()]);
    let errors = vec![diagnostic(0, DiagnosticSeverity::Error, "broken")];
    let (_, token) = delivery.stage(
        &child.record,
        &[entry("a.rs", &errors, SeverityFloor::Warning)],
    );
    delivery.touch_hook(&child, t + 59 * SECOND);
    delivery.expire(t + 60 * SECOND);
    assert!(delivery.is_staged(&child.record));
    delivery.expire(t + 119 * SECOND);
    assert!(!delivery.commit(&child.record, token.unwrap()));
    assert!(delivery.keeps_nothing());
    assert_eq!(delivery.claims(), 0);
}

#[test]
fn reconnect_preserves_history_until_the_last_close_plus_grace() {
    let mut connections: u64 = 0;
    let mut delivery = DiagnosticsDelivery::new(DiagnosticsConfig::default());
    let root = caller("root", "root");
    let first = ConnectionId::next(&mut connections);
    let second = ConnectionId::next(&mut connections);
    let t = START;
    delivery.attach(first, &root, t);
    let errors = vec![diagnostic(0, DiagnosticSeverity::Error, "broken")];
    let entries = [entry("a.rs", &errors, SeverityFloor::Warning)];
    delivery.flush(&root.record, &entries);
    delivery.close(first, t);
    delivery.attach(second, &root, t);
    delivery.expire(t + 61 * SECOND);
    assert!(delivery.flush(&root.record, &entries).changed.is_empty());
    delivery.close(second, t + 61 * SECOND);
    delivery.expire(t + 121 * SECOND);
    assert_eq!(delivery.flush(&root.record, &entries).changed.len(), 1);
}

#[test]
fn a_writer_without_root_metadata_keeps_its_claim_when_resolved() {
    let mut delivery = DiagnosticsDelivery::new(DiagnosticsConfig::default());
    let mut a = caller("root", "a");
    a.root = None;
    delivery.record_write(&a, &["a.rs".into()]);
    let errors = vec![diagnostic(0, DiagnosticSeverity::Error, "broken")];
    let entries = [
        entry("a.rs", &errors, SeverityFloor::Warning),
        entry("unowned.rs", &errors, SeverityFloor::Warning),
    ];
    let report = delivery.flush(&a.record, &entries);
    assert_eq!(report.changed.len(), 1);
    assert_eq!(report.changed[0].key, "a.rs");
    a.root = Some(SessionId::from("root".to_string()));
    delivery.register_caller(&a);
    let root = caller("root", "root");
    delivery.register_caller(&root);
    assert_eq!(
        delivery.flush(&root.record, &entries).changed[0].key,
        "unowned.rs"
    );
    assert!(delivery.flush(&a.record, &entries).changed.is_empty());
}

#[test]
fn deferred_files_keep_their_snapshot_when_the_cache_disappears() {
    let mut delivery = DiagnosticsDelivery::new(DiagnosticsConfig {
        max_total: 1,
        ..Default::default()
    });
    let a = caller("root", "a");
    let b = caller("root", "b");
    for writer in [&a, &b] {
        delivery.record_write(writer, &["a.rs".into(), "b.rs".into()]);
    }
    let errors = vec![diagnostic(0, DiagnosticSeverity::Error, "old")];
    let entries = [
        entry("a.rs", &errors, SeverityFloor::Warning),
        entry("b.rs", &errors, SeverityFloor::Warning),
    ];
    let first = delivery.flush(&a.record, &entries);
    assert_eq!(first.changed[0].key, "a.rs");
    assert_eq!(first.omitted, 1);
    assert_eq!(delivery.flush(&a.record, &[]).changed[0].key, "b.rs");
    assert_eq!(delivery.flush(&b.record, &[]).changed[0].key, "a.rs");
    assert_eq!(delivery.flush(&b.record, &[]).changed[0].key, "b.rs");
}

#[test]
fn independent_roots_and_unchanged_transfer_have_separate_histories() {
    let mut delivery = DiagnosticsDelivery::new(DiagnosticsConfig::default());
    let a = caller("root", "a");
    let b = caller("root", "b");
    let other = caller("other", "other");
    delivery.register_caller(&other);
    delivery.record_write(&a, &["a.rs".into()]);
    let errors = vec![diagnostic(0, DiagnosticSeverity::Error, "broken")];
    let entries = [entry("a.rs", &errors, SeverityFloor::Warning)];
    assert_eq!(delivery.flush(&a.record, &entries).changed.len(), 1);
    delivery.record_write(&b, &["a.rs".into()]);
    assert_eq!(delivery.flush(&b.record, &entries).changed.len(), 1);
    assert_eq!(delivery.flush(&other.record, &entries).changed.len(), 1);
    assert!(delivery.flush(&a.record, &entries).changed.is_empty());
}

#[test]
fn a_muted_file_forgets_history_without_reporting_a_clear() {
    let mut delivery = DiagnosticsDelivery::new(DiagnosticsConfig::default());
    let a = caller("root", "a");
    delivery.record_write(&a, &["a.rs".into()]);
    let errors = vec![diagnostic(0, DiagnosticSeverity::Error, "broken")];
    delivery.flush(&a.record, &[entry("a.rs", &errors, SeverityFloor::Warning)]);
    let muted = delivery.flush(&a.record, &[entry("a.rs", &errors, SeverityFloor::Off)]);
    assert!(muted.changed.is_empty());
    assert!(muted.cleared.is_empty());
    assert_eq!(
        delivery
            .flush(&a.record, &[entry("a.rs", &errors, SeverityFloor::Warning)])
            .changed
            .len(),
        1
    );
}

#[test]
fn retained_ranges_use_the_original_document_text() {
    let source = DiagnosticSnapshot {
        uri: "file:///a.rs".to_string(),
        encoding: PositionEncoding::Utf8,
        text: Some("😀broken".to_string()),
    };
    let mut error = diagnostic(0, DiagnosticSeverity::Error, "broken");
    error.range.start.character = 4;
    error.range.end.character = 5;
    let converted = source.render(&error);
    assert_eq!(converted.range.start.character, 3);
    assert_eq!(converted.range.end.character, 4);
}

#[test]
fn each_writer_receives_only_its_file_and_root_gets_unowned_files() {
    let mut delivery = DiagnosticsDelivery::new(DiagnosticsConfig::default());
    delivery.set_baseline(Table::new());
    let a = caller("root", "a");
    let b = caller("root", "b");
    let root = caller("root", "root");
    for person in [&a, &b, &root] {
        delivery.register_caller(person);
    }
    delivery.record_write(&a, &["a.rs".to_string()]);
    delivery.record_write(&b, &["b.rs".to_string()]);
    let errors = vec![diagnostic(0, DiagnosticSeverity::Error, "broken")];
    let entries = [
        entry("a.rs", &errors, SeverityFloor::Warning),
        entry("b.rs", &errors, SeverityFloor::Warning),
        entry("c.rs", &errors, SeverityFloor::Warning),
    ];
    for (person, file) in [(&a, "a.rs"), (&b, "b.rs"), (&root, "c.rs")] {
        let report = delivery.flush(&person.record, &entries);
        assert_eq!(
            report
                .changed
                .iter()
                .map(|f| f.key.as_str())
                .collect::<Vec<_>>(),
            vec![file]
        );
        assert!(delivery.flush(&person.record, &entries).changed.is_empty());
    }
}

#[test]
fn a_late_writer_reads_its_snapshot_after_ownership_and_cache_change() {
    let mut delivery = DiagnosticsDelivery::new(DiagnosticsConfig::default());
    delivery.set_baseline(Table::new());
    let a = caller("root", "a");
    let b = caller("root", "b");
    let c = caller("root", "c");
    delivery.record_write(&a, &["a.rs".to_string()]);
    delivery.record_write(&b, &["a.rs".to_string()]);
    let old = vec![diagnostic(0, DiagnosticSeverity::Error, "old")];
    let entries = [entry("a.rs", &old, SeverityFloor::Warning)];
    let (_, token) = delivery.stage(&b.record, &entries);
    assert_eq!(delivery.flush(&a.record, &entries).changed.len(), 1);
    delivery.record_write(&c, &["a.rs".to_string()]);
    let new = vec![diagnostic(1, DiagnosticSeverity::Error, "new")];
    let latest = [entry("a.rs", &new, SeverityFloor::Warning)];
    let report = delivery.flush(&b.record, &latest);
    assert_eq!(report.changed[0].diagnostics[0].message, "old");
    assert!(!delivery.commit(&b.record, token.unwrap()));
    assert_eq!(
        delivery.flush(&c.record, &latest).changed[0].diagnostics[0].message,
        "new"
    );
    assert!(delivery.flush(&a.record, &latest).changed.is_empty());
}

#[test]
fn later_publications_and_clears_stay_with_the_writer() {
    let mut delivery = DiagnosticsDelivery::new(DiagnosticsConfig::default());
    let a = caller("root", "a");
    let root = caller("root", "root");
    delivery.register_caller(&root);
    delivery.record_write(&a, &["a.rs".to_string()]);
    for message in ["first", "later"] {
        let diagnostics = vec![diagnostic(0, DiagnosticSeverity::Error, message)];
        let entries = [entry("a.rs", &diagnostics, SeverityFloor::Warning)];
        assert_eq!(delivery.flush(&a.record, &entries).changed.len(), 1);
        assert!(delivery.flush(&root.record, &entries).changed.is_empty());
    }
    assert_eq!(
        delivery
            .flush(&a.record, &[entry("a.rs", &[], SeverityFloor::Warning)])
            .cleared,
        vec!["a.rs"]
    );
}

#[test]
fn a_new_cycle_survives_an_older_acknowledgment() {
    let mut delivery = DiagnosticsDelivery::new(DiagnosticsConfig::default());
    let a = caller("root", "a");
    let b = caller("root", "b");
    delivery.record_write(&a, &["a.rs".to_string()]);
    delivery.record_write(&b, &["a.rs".to_string()]);
    let old = vec![diagnostic(0, DiagnosticSeverity::Error, "old")];
    let entries = [entry("a.rs", &old, SeverityFloor::Warning)];
    let (_, old_token) = delivery.stage(&b.record, &entries);
    delivery.flush(&a.record, &entries);
    delivery.record_write(&b, &["a.rs".to_string()]);
    assert!(delivery.commit(&b.record, old_token.unwrap()));
    delivery.record_write(&a, &["a.rs".to_string()]);
    let new = vec![diagnostic(1, DiagnosticSeverity::Error, "new")];
    let latest = [entry("a.rs", &new, SeverityFloor::Warning)];
    assert_eq!(delivery.flush(&b.record, &latest).changed.len(), 1);
    assert_eq!(delivery.flush(&a.record, &latest).changed.len(), 1);
}

#[test]
fn a_writer_keeps_what_it_is_owed_with_the_text_of_the_moment() {
    let mut delivery = DiagnosticsDelivery::new(DiagnosticsConfig::default());
    let writer = caller("root", "writer");
    delivery.register_caller(&writer);
    delivery.record_write(&writer, &["a.rs".to_string()]);
    let mut sources = Table::new();
    sources.put(
        "a.rs".to_string(),
        DiagnosticSnapshot {
            uri: "file:///a.rs".to_string(),
            encoding: PositionEncoding::Utf16,
            text: Some("old text".to_string()),
        },
    );
    delivery.capture_sources(sources);
    let found = vec![diagnostic(0, DiagnosticSeverity::Error, "kept")];
    delivery.observe_owned(&[entry("a.rs", &found, SeverityFloor::Warning)]);

    let report = delivery.flush(&writer.record, &[]);
    assert_eq!(report.changed.len(), 1);
    assert_eq!(report.changed[0].diagnostics[0].message, "kept");
    assert!(delivery.flush(&writer.record, &[]).changed.is_empty());
}

#[test]
fn a_record_has_a_deadline_once_its_connection_closed() {
    let config = DiagnosticsConfig {
        record_grace_ms: 2_000,
        ..DiagnosticsConfig::default()
    };
    let mut delivery = DiagnosticsDelivery::new(config);
    let connection = ConnectionId { number: 1 };
    assert!(!delivery.has_baseline());
    delivery.set_baseline(Table::new());
    assert!(delivery.has_baseline());
    assert_eq!(delivery.next_deadline(), None);
    delivery.attach(connection, &caller("root", "root"), START);
    assert_eq!(delivery.next_deadline(), None);
    delivery.close(connection, START);
    assert_eq!(
        delivery.next_deadline(),
        Some(u128::from(START + 2 * SECOND))
    );
}

#[test]
fn expiry_worker_rechecks_renewed_hook_deadlines() {
    let mut delivery = DiagnosticsDelivery::new(DiagnosticsConfig::default());
    let child = caller("root", "child");
    delivery.touch_hook(&child, START);
    delivery.record_write(&child, &["a.rs".into()]);
    let errors = vec![diagnostic(0, DiagnosticSeverity::Error, "broken")];
    let (_, token) = delivery.stage(
        &child.record,
        &[entry("a.rs", &errors, SeverityFloor::Warning)],
    );
    delivery.touch_hook(&child, START + 59 * SECOND);
    delivery.expire(START + 61 * SECOND);
    assert!(delivery.is_staged(&child.record));
    delivery.expire(START + 120 * SECOND);
    assert!(!delivery.commit(&child.record, token.unwrap()));
}

#[test]
fn a_record_survives_a_reconnect_inside_grace_and_expires_after_it() {
    let mut delivery = DiagnosticsDelivery::new(DiagnosticsConfig {
        record_grace_ms: 60_000,
        ..DiagnosticsConfig::default()
    });
    let solo = caller("solo", "solo");
    let errors = vec![diagnostic(0, DiagnosticSeverity::Error, "broken")];
    let entries = [entry("a.rs", &errors, SeverityFloor::Warning)];

    delivery.attach(ConnectionId { number: 1 }, &solo, START);
    delivery.record_write(&solo, &["a.rs".into()]);
    let token = delivery.stage(&solo.record, &entries).1.unwrap();
    assert!(delivery.commit(&solo.record, token));
    delivery.close(ConnectionId { number: 1 }, START);

    delivery.attach(ConnectionId { number: 2 }, &solo, START + 30 * SECOND);
    assert!(
        delivery.flush(&solo.record, &entries).changed.is_empty(),
        "a reconnect inside the grace was told again about a delivered error"
    );
    delivery.close(ConnectionId { number: 2 }, START + 30 * SECOND);

    delivery.expire(START + 91 * SECOND);
    assert_eq!(delivery.flush(&solo.record, &entries).changed.len(), 1);
}

#[test]
fn named_connections_protect_a_child_until_the_last_close_after_end() {
    let mut delivery = DiagnosticsDelivery::new(DiagnosticsConfig::default());
    let root = caller("root", "root");
    let child = caller("root", "child");
    let errors = vec![diagnostic(0, DiagnosticSeverity::Error, "broken")];
    let entries = [entry("a.rs", &errors, SeverityFloor::Warning)];
    delivery.attach(ConnectionId { number: 1 }, &root, START);
    delivery.attach(ConnectionId { number: 2 }, &root, START);
    delivery.touch_hook(&child, START);
    delivery.record_write(&child, &["a.rs".into()]);
    let token = delivery.stage(&child.record, &entries).1.unwrap();
    delivery.end_root(&SessionId::from("root".to_string()), START);
    delivery.close(ConnectionId { number: 2 }, START);
    assert!(delivery.commit(&child.record, token));
    delivery.close(ConnectionId { number: 1 }, START);
    assert_eq!(delivery.flush(&child.record, &entries).changed.len(), 1);
}

#[test]
fn a_registered_root_is_told_each_file_once_under_any_budget() {
    let mut connections: u64 = 0;
    let mut delivery = DiagnosticsDelivery::new(DiagnosticsConfig {
        max_total: 1,
        ..DiagnosticsConfig::default()
    });
    let root = caller("root", "root");
    let child = caller("root", "child");
    delivery.attach(ConnectionId::next(&mut connections), &root, START);
    delivery.touch_hook(&child, START);
    delivery.record_write(&child, &["child.rs".into()]);
    let errors = vec![diagnostic(0, DiagnosticSeverity::Error, "broken")];
    let entries = [
        entry("a.rs", &errors, SeverityFloor::Warning),
        entry("b.rs", &errors, SeverityFloor::Warning),
        entry("child.rs", &errors, SeverityFloor::Warning),
    ];
    let mut named: Vec<String> = Vec::new();
    for _ in 0..entries.len() {
        let report = delivery.flush(&root.record, &entries);
        named.extend(report.changed.iter().map(|file| file.key.clone()));
    }
    assert_eq!(named, ["a.rs", "b.rs"], "what its agent owns goes to the agent");
    let report = delivery.flush(&root.record, &entries);
    assert!(report.changed.is_empty() && report.cleared.is_empty() && report.omitted == 0);
    let report = delivery.flush(&child.record, &entries);
    assert_eq!(report.changed[0].key, "child.rs");
    let report = delivery.flush(&child.record, &entries);
    assert!(report.changed.is_empty());
}

#[test]
fn what_a_registered_root_is_owed_comes_in_the_order_of_the_keys() {
    let mut connections: u64 = 0;
    let mut delivery = DiagnosticsDelivery::new(DiagnosticsConfig::default());
    let root = caller("root", "root");
    delivery.attach(ConnectionId::next(&mut connections), &root, START);
    let errors = vec![diagnostic(0, DiagnosticSeverity::Error, "broken")];
    let entries = [
        entry("z.rs", &errors, SeverityFloor::Warning),
        entry("a.rs", &errors, SeverityFloor::Warning),
    ];
    let report = delivery.flush(&root.record, &entries);
    let keys: Vec<&str> = report.changed.iter().map(|file| file.key.as_str()).collect();
    assert_eq!(keys, ["a.rs", "z.rs"]);
}
