use mcpls_core::config::{DiagnosticsConfig, SeverityFloor};
use mcpls_core::delivery::{DiagnosticsDelivery, FileEntry, FlushReport};
use mcpls_core::diagnostics::{Diagnostic, DiagnosticSeverity, Position, Range};
use mcpls_core::identity::{RecordId, SessionId};
use mcpls_core::table::Table;

fn session(name: &str) -> RecordId {
    RecordId::of_session(&SessionId::from(name.to_string()))
}

fn diagnostic(line: u32, severity: DiagnosticSeverity, message: &str) -> Diagnostic {
    Diagnostic {
        range: Range {
            start: Position { line, character: 0 },
            end: Position { line, character: 1 },
        },
        severity: Some(severity),
        code: None,
        source: None,
        message: message.to_string(),
    }
}

fn entry<'a>(key: &'a str, diagnostics: &'a [Diagnostic], floor: SeverityFloor) -> FileEntry<'a> {
    FileEntry { key, diagnostics, floor }
}

#[test]
fn test_a_changed_file_is_returned_once_and_not_twice() {
    let mut delivery = DiagnosticsDelivery::new(DiagnosticsConfig::default());
    let session = session("s");
    let diags = vec![diagnostic(1, DiagnosticSeverity::Error, "boom")];

    let first = delivery.flush(&session, &[entry("a.rs", &diags, SeverityFloor::Warning)]);
    assert_eq!(first.changed.len(), 1);

    let second = delivery.flush(&session, &[entry("a.rs", &diags, SeverityFloor::Warning)]);
    assert!(
        second.changed.is_empty(),
        "nothing changed since the last flush"
    );
}

#[test]
fn test_a_file_losing_its_diagnostics_is_reported_once() {
    let mut delivery = DiagnosticsDelivery::new(DiagnosticsConfig::default());
    let session = session("s");
    let diags = vec![diagnostic(1, DiagnosticSeverity::Error, "boom")];
    delivery.flush(&session, &[entry("a.rs", &diags, SeverityFloor::Warning)]);

    let fixed = delivery.flush(&session, &[entry("a.rs", &[], SeverityFloor::Warning)]);
    assert_eq!(fixed.cleared, vec!["a.rs".to_string()]);

    let again = delivery.flush(&session, &[entry("a.rs", &[], SeverityFloor::Warning)]);
    assert!(again.cleared.is_empty(), "cleared is not re-reported");
}

#[test]
fn test_sub_floor_churn_does_not_report_a_file_with_nothing_to_show() {
    let mut delivery = DiagnosticsDelivery::new(DiagnosticsConfig::default());
    let session = session("s");
    let errors = vec![diagnostic(1, DiagnosticSeverity::Error, "boom")];
    delivery.flush(&session, &[entry("a.rs", &errors, SeverityFloor::Warning)]);

    let mut with_hint = errors.clone();
    with_hint.push(diagnostic(9, DiagnosticSeverity::Hint, "consider"));
    let after = delivery.flush(
        &session,
        &[entry("a.rs", &with_hint, SeverityFloor::Warning)],
    );
    assert!(
        after.changed.is_empty(),
        "the hint is below the floor, so nothing visible changed"
    );
}

#[test]
fn test_a_staged_report_is_offered_again_until_it_is_acknowledged() {
    let mut delivery = DiagnosticsDelivery::new(DiagnosticsConfig::default());
    let session = session("s");
    let diags = vec![diagnostic(1, DiagnosticSeverity::Error, "boom")];
    let entries = [entry("a.rs", &diags, SeverityFloor::Warning)];

    let (first, _) = delivery.stage(&session, &entries);
    assert_eq!(first.changed.len(), 1);

    let (second, token) = delivery.stage(&session, &entries);
    assert_eq!(
        second.changed.len(),
        1,
        "nothing confirmed the first report reached its reader, so it is \
         offered again rather than marked delivered"
    );

    assert!(delivery.commit(
        &session,
        token.expect("a report with content carries a token")
    ));

    let (third, token) = delivery.stage(&session, &entries);
    assert!(
        third.changed.is_empty(),
        "the acknowledged report is not offered again"
    );
    assert_eq!(
        token, None,
        "nothing to commit means nothing to acknowledge"
    );
}

#[test]
fn test_an_acknowledgement_for_a_replaced_report_commits_nothing() {
    let mut delivery = DiagnosticsDelivery::new(DiagnosticsConfig::default());
    let session = session("s");
    let one = vec![diagnostic(1, DiagnosticSeverity::Error, "boom")];
    let two = vec![
        diagnostic(1, DiagnosticSeverity::Error, "boom"),
        diagnostic(2, DiagnosticSeverity::Error, "bang"),
    ];

    let (_, stale) = delivery.stage(&session, &[entry("a.rs", &one, SeverityFloor::Warning)]);
    let (_, current) = delivery.stage(&session, &[entry("a.rs", &two, SeverityFloor::Warning)]);

    assert!(
        !delivery.commit(&session, stale.expect("token")),
        "a later report replaced this one; committing it would record a \
         hash its reader was never sent"
    );
    assert!(delivery.commit(&session, current.expect("token")));

    let (after_two, _) =
        delivery.stage(&session, &[entry("a.rs", &two, SeverityFloor::Warning)]);
    assert!(
        after_two.changed.is_empty(),
        "the record holds the acknowledged report's hash"
    );
    let (after_one, _) =
        delivery.stage(&session, &[entry("a.rs", &one, SeverityFloor::Warning)]);
    assert_eq!(
        after_one.changed.len(),
        1,
        "and not the replaced report's hash"
    );
}

#[test]
fn test_a_stage_with_nothing_to_report_drops_the_older_staged_report() {
    let mut delivery = DiagnosticsDelivery::new(DiagnosticsConfig::default());
    let session = session("s");
    let broken = vec![diagnostic(1, DiagnosticSeverity::Error, "boom")];

    let (first, token) =
        delivery.stage(&session, &[entry("a.rs", &broken, SeverityFloor::Warning)]);
    assert_eq!(first.changed.len(), 1);

    let (fixed, none) = delivery.stage(&session, &[entry("a.rs", &[], SeverityFloor::Warning)]);
    assert!(
        fixed.changed.is_empty() && fixed.cleared.is_empty(),
        "the file broke and was fixed before the record ever took its \
         hash, so there is nothing to report either way"
    );
    assert_eq!(none, None);

    assert!(
        !delivery.commit(&session, token.expect("token")),
        "the report that token named is no longer the session's staged one"
    );

    let (again, _) =
        delivery.stage(&session, &[entry("a.rs", &broken, SeverityFloor::Warning)]);
    assert_eq!(
        again.changed.len(),
        1,
        "committing the older report would have recorded a hash no reader \
         was ever confirmed to have, and the next flush would then say the \
         file is clean rather than broken"
    );
}

#[test]
fn test_an_immediate_flush_supersedes_a_staged_report() {
    let mut delivery = DiagnosticsDelivery::new(DiagnosticsConfig::default());
    let session = session("s");
    let diags = vec![diagnostic(1, DiagnosticSeverity::Error, "boom")];
    let entries = [entry("a.rs", &diags, SeverityFloor::Warning)];

    let (_, staged) = delivery.stage(&session, &entries);
    let now = delivery.flush(&session, &entries);
    assert_eq!(
        now.changed.len(),
        1,
        "the tool door reports what the hook door has not yet confirmed"
    );

    assert!(
        !delivery.commit(&session, staged.expect("token")),
        "the flush already advanced the record, so a late acknowledgement \
         has nothing left to apply"
    );

    let (after, token) = delivery.stage(&session, &entries);
    assert!(after.changed.is_empty());
    assert_eq!(token, None);
}

#[test]
fn test_ending_a_session_drops_its_staged_report() {
    let mut delivery = DiagnosticsDelivery::new(DiagnosticsConfig::default());
    let session = session("s");
    let diags = vec![diagnostic(1, DiagnosticSeverity::Error, "boom")];
    let entries = [entry("a.rs", &diags, SeverityFloor::Warning)];

    let (_, token) = delivery.stage(&session, &entries);
    delivery.end_session(&session);

    assert!(!delivery.commit(&session, token.expect("token")));
    let (again, _) = delivery.stage(&session, &entries);
    assert_eq!(
        again.changed.len(),
        1,
        "a session that starts over starts from the baseline, not from a \
         report its previous life never confirmed"
    );
}

#[test]
fn test_the_hash_ignores_publish_order() {
    let mut delivery = DiagnosticsDelivery::new(DiagnosticsConfig::default());
    let session = session("s");
    let a = diagnostic(1, DiagnosticSeverity::Error, "one");
    let b = diagnostic(2, DiagnosticSeverity::Warning, "two");

    delivery.flush(
        &session,
        &[entry(
            "a.rs",
            &[a.clone(), b.clone()],
            SeverityFloor::Warning,
        )],
    );
    let reordered = delivery.flush(&session, &[entry("a.rs", &[b, a], SeverityFloor::Warning)]);
    assert!(reordered.changed.is_empty(), "order is not content");
}

#[test]
fn test_a_capped_file_says_how_many_it_dropped() {
    let config = DiagnosticsConfig {
        max_per_file: 2,
        ..DiagnosticsConfig::default()
    };
    let mut delivery = DiagnosticsDelivery::new(config);
    let session = session("s");
    let diags: Vec<_> = (0..5)
        .map(|i| diagnostic(i, DiagnosticSeverity::Error, "boom"))
        .collect();

    let report = delivery.flush(&session, &[entry("a.rs", &diags, SeverityFloor::Warning)]);
    assert_eq!(report.changed[0].diagnostics.len(), 2);
    assert_eq!(report.changed[0].omitted, 3);
}

#[test]
fn test_a_file_dropped_by_the_total_cap_is_still_pending() {
    let config = DiagnosticsConfig {
        max_total: 1,
        ..DiagnosticsConfig::default()
    };
    let mut delivery = DiagnosticsDelivery::new(config);
    let session = session("s");
    let a = vec![diagnostic(1, DiagnosticSeverity::Error, "a")];
    let b = vec![diagnostic(1, DiagnosticSeverity::Error, "b")];

    let first = delivery.flush(
        &session,
        &[
            entry("a.rs", &a, SeverityFloor::Warning),
            entry("b.rs", &b, SeverityFloor::Warning),
        ],
    );
    assert_eq!(first.changed.len(), 1);
    assert_eq!(first.omitted, 1);

    let second = delivery.flush(
        &session,
        &[
            entry("a.rs", &a, SeverityFloor::Warning),
            entry("b.rs", &b, SeverityFloor::Warning),
        ],
    );
    assert_eq!(
        second.changed.len(),
        1,
        "the file the cap dropped is delivered next time, not swallowed"
    );
}

#[test]
fn test_a_muted_server_delivers_nothing() {
    let mut delivery = DiagnosticsDelivery::new(DiagnosticsConfig::default());
    let session = session("s");
    let diags = vec![diagnostic(1, DiagnosticSeverity::Error, "boom")];

    let report = delivery.flush(&session, &[entry("a.rs", &diags, SeverityFloor::Off)]);
    assert!(report.changed.is_empty());
    assert!(report.cleared.is_empty(), "muted is not the same as fixed");
}

#[test]
fn test_two_sessions_deduplicate_independently() {
    let mut delivery = DiagnosticsDelivery::new(DiagnosticsConfig::default());
    let diags = vec![diagnostic(1, DiagnosticSeverity::Error, "boom")];
    let one = session("one");
    let two = session("two");

    delivery.flush(&one, &[entry("a.rs", &diags, SeverityFloor::Warning)]);
    let other = delivery.flush(&two, &[entry("a.rs", &diags, SeverityFloor::Warning)]);
    assert_eq!(
        other.changed.len(),
        1,
        "a second session has its own record"
    );
}

#[test]
fn test_a_session_starting_after_the_baseline_ignores_what_it_recorded() {
    let mut delivery = DiagnosticsDelivery::new(DiagnosticsConfig::default());
    let diags = vec![diagnostic(1, DiagnosticSeverity::Error, "pre-existing")];

    let mut baseline = Table::new();
    baseline.put(
        "a.rs".to_string(),
        DiagnosticsDelivery::visible_hash(&diags, SeverityFloor::Warning).unwrap(),
    );
    delivery.set_baseline(baseline);

    let report = delivery.flush(
        &session("s"),
        &[entry("a.rs", &diags, SeverityFloor::Warning)],
    );
    assert!(
        report.changed.is_empty(),
        "the workspace already had this before the session started"
    );
}

#[test]
fn test_max_per_file_and_max_total_both_bind_in_one_flush() {
    let config = DiagnosticsConfig {
        max_per_file: 2,
        max_total: 3,
        ..DiagnosticsConfig::default()
    };
    let mut delivery = DiagnosticsDelivery::new(config);
    let session = session("s");
    let a: Vec<_> = (0..4)
        .map(|i| diagnostic(i, DiagnosticSeverity::Error, "a"))
        .collect();
    let b: Vec<_> = (0..4)
        .map(|i| diagnostic(i, DiagnosticSeverity::Error, "b"))
        .collect();

    let report = delivery.flush(
        &session,
        &[
            entry("a.rs", &a, SeverityFloor::Warning),
            entry("b.rs", &b, SeverityFloor::Warning),
        ],
    );

    assert_eq!(report.changed.len(), 1, "only a.rs fit the total budget");
    assert_eq!(report.changed[0].key, "a.rs");
    assert_eq!(
        report.changed[0].diagnostics.len(),
        2,
        "a.rs is still capped at max_per_file"
    );
    assert_eq!(
        report.changed[0].omitted, 2,
        "a.rs's own omitted count is max_per_file's drop, not the total cap's"
    );
    assert_eq!(report.omitted, 1, "b.rs was deferred whole, not truncated");
}

#[test]
fn test_a_file_deferred_by_the_total_cap_is_offered_whole_next_flush() {
    let config = DiagnosticsConfig {
        max_total: 3,
        ..DiagnosticsConfig::default()
    };
    let mut delivery = DiagnosticsDelivery::new(config);
    let session = session("s");
    let a: Vec<_> = (0..2)
        .map(|i| diagnostic(i, DiagnosticSeverity::Error, "a"))
        .collect();
    let b: Vec<_> = (0..3)
        .map(|i| diagnostic(i, DiagnosticSeverity::Error, "b"))
        .collect();

    let first = delivery.flush(
        &session,
        &[
            entry("a.rs", &a, SeverityFloor::Warning),
            entry("b.rs", &b, SeverityFloor::Warning),
        ],
    );
    assert_eq!(first.changed.len(), 1);
    assert_eq!(first.changed[0].key, "a.rs");
    assert_eq!(first.omitted, 1, "b.rs did not fit alongside a.rs");

    let second = delivery.flush(
        &session,
        &[
            entry("a.rs", &a, SeverityFloor::Warning),
            entry("b.rs", &b, SeverityFloor::Warning),
        ],
    );
    assert_eq!(second.changed.len(), 1);
    assert_eq!(second.changed[0].key, "b.rs");
    assert_eq!(
        second.changed[0].diagnostics.len(),
        3,
        "b.rs is offered whole once the budget is free again"
    );
    assert_eq!(second.changed[0].omitted, 0);
}

#[test]
fn test_a_file_larger_than_the_total_budget_is_delivered_truncated_once() {
    let config = DiagnosticsConfig {
        max_total: 2,
        ..DiagnosticsConfig::default()
    };
    let mut delivery = DiagnosticsDelivery::new(config);
    let session = session("s");
    let diags: Vec<_> = (0..5)
        .map(|i| diagnostic(i, DiagnosticSeverity::Error, "boom"))
        .collect();

    let report = delivery.flush(&session, &[entry("c.rs", &diags, SeverityFloor::Warning)]);

    assert_eq!(
        report.changed.len(),
        1,
        "a file that can never fit the budget is delivered truncated, not deferred forever"
    );
    assert_eq!(report.changed[0].diagnostics.len(), 2);
    assert_eq!(report.changed[0].omitted, 3);
    assert_eq!(report.omitted, 0, "delivered, so not counted as deferred");
}

#[test]
fn test_diagnostics_entirely_below_the_floor_are_reported_as_cleared() {
    let mut delivery = DiagnosticsDelivery::new(DiagnosticsConfig::default());
    let session = session("s");
    let errors = vec![diagnostic(1, DiagnosticSeverity::Error, "boom")];
    delivery.flush(&session, &[entry("a.rs", &errors, SeverityFloor::Warning)]);

    let hints = vec![diagnostic(9, DiagnosticSeverity::Hint, "consider")];
    let report = delivery.flush(&session, &[entry("a.rs", &hints, SeverityFloor::Warning)]);

    assert_eq!(
        report.cleared,
        vec!["a.rs".to_string()],
        "a non-empty publish with nothing above the floor is still a clear"
    );
}

#[test]
fn test_a_zero_total_cap_means_unlimited_not_zero() {
    let config = DiagnosticsConfig {
        max_total: 0,
        ..DiagnosticsConfig::default()
    };
    let mut delivery = DiagnosticsDelivery::new(config);
    let session = session("s");
    let files: Vec<Vec<Diagnostic>> = (0..6)
        .map(|f| {
            (0..8)
                .map(|i| diagnostic(i, DiagnosticSeverity::Error, "boom"))
                .map(|mut d| {
                    d.message = format!("f{f}-{}", d.message);
                    d
                })
                .collect()
        })
        .collect();
    let keys: Vec<String> = (0..6).map(|f| format!("f{f}.rs")).collect();
    let entries: Vec<FileEntry<'_>> = keys
        .iter()
        .zip(files.iter())
        .map(|(key, diags)| entry(key, diags, SeverityFloor::Warning))
        .collect();

    let report = delivery.flush(&session, &entries);

    assert_eq!(report.changed.len(), 6, "every file was delivered");
    for changed in &report.changed {
        assert_eq!(changed.diagnostics.len(), 8, "delivered whole");
        assert_eq!(changed.omitted, 0);
    }
    assert_eq!(
        report.omitted, 0,
        "nothing deferred under an unlimited budget"
    );
}

#[test]
fn test_an_unlimited_budget_still_applies_the_per_file_cap() {
    let mut delivery = DiagnosticsDelivery::new(DiagnosticsConfig {
        max_total: 0,
        max_per_file: 3,
        ..DiagnosticsConfig::default()
    });
    let session = session("s");
    let files: Vec<Vec<Diagnostic>> = (0..3)
        .map(|f| {
            (0..5)
                .map(|i| diagnostic(i, DiagnosticSeverity::Error, &format!("f{f}-{i}")))
                .collect()
        })
        .collect();
    let keys: Vec<String> = (0..3).map(|f| format!("f{f}.rs")).collect();
    let entries: Vec<FileEntry<'_>> = keys
        .iter()
        .zip(files.iter())
        .map(|(key, diags)| entry(key, diags, SeverityFloor::Warning))
        .collect();

    let report = delivery.flush(&session, &entries);

    assert_eq!(
        report.changed.len(),
        3,
        "an unlimited budget defers nothing"
    );
    for changed in &report.changed {
        assert_eq!(changed.diagnostics.len(), 3, "the per-file cap still bites");
        assert_eq!(changed.omitted, 2, "and its drops are counted");
    }
    assert_eq!(report.omitted, 0, "no file was deferred for budget");
}

#[test]
fn test_a_zero_per_file_cap_means_unlimited_not_zero() {
    let mut delivery = DiagnosticsDelivery::new(DiagnosticsConfig {
        max_per_file: 0,
        ..DiagnosticsConfig::default()
    });
    let session = session("s");
    let diags: Vec<_> = (0..15)
        .map(|i| diagnostic(i, DiagnosticSeverity::Error, "boom"))
        .collect();

    let report = delivery.flush(&session, &[entry("a.rs", &diags, SeverityFloor::Warning)]);

    assert_eq!(report.changed[0].diagnostics.len(), 15, "delivered whole");
    assert_eq!(report.changed[0].omitted, 0);
}

#[test]
fn test_both_caps_zero_together_deliver_everything() {
    let config = DiagnosticsConfig {
        max_per_file: 0,
        max_total: 0,
        ..DiagnosticsConfig::default()
    };
    let mut delivery = DiagnosticsDelivery::new(config);
    let session = session("s");
    let a: Vec<_> = (0..30)
        .map(|i| diagnostic(i, DiagnosticSeverity::Error, "a"))
        .collect();
    let b: Vec<_> = (0..30)
        .map(|i| diagnostic(i, DiagnosticSeverity::Error, "b"))
        .collect();

    let report = delivery.flush(
        &session,
        &[
            entry("a.rs", &a, SeverityFloor::Warning),
            entry("b.rs", &b, SeverityFloor::Warning),
        ],
    );

    assert_eq!(report.changed.len(), 2);
    assert_eq!(report.changed[0].diagnostics.len(), 30);
    assert_eq!(report.changed[0].omitted, 0);
    assert_eq!(report.changed[1].diagnostics.len(), 30);
    assert_eq!(report.changed[1].omitted, 0);
    assert_eq!(report.omitted, 0);
}

#[test]
fn test_a_zero_total_cap_still_deduplicates_across_flushes() {
    let config = DiagnosticsConfig {
        max_total: 0,
        ..DiagnosticsConfig::default()
    };
    let mut delivery = DiagnosticsDelivery::new(config);
    let session = session("s");
    let diags = vec![diagnostic(1, DiagnosticSeverity::Error, "boom")];

    let first = delivery.flush(&session, &[entry("a.rs", &diags, SeverityFloor::Warning)]);
    assert_eq!(
        first.changed[0].diagnostics.len(),
        1,
        "an unlimited budget delivers the diagnostic, not an empty list"
    );

    let second = delivery.flush(&session, &[entry("a.rs", &diags, SeverityFloor::Warning)]);
    assert!(
        second.changed.is_empty(),
        "the second flush is unchanged because the first one actually delivered \
         the diagnostic, not because it was silently swallowed"
    );
}

#[test]
fn test_cleared_files_spend_the_total_budget() {
    let mut delivery = DiagnosticsDelivery::new(DiagnosticsConfig {
        max_total: 2,
        ..DiagnosticsConfig::default()
    });
    let session = session("s");
    let broken = vec![diagnostic(0, DiagnosticSeverity::Error, "boom")];

    // Seed all four records two at a time, so each seeding flush fits the
    // budget of two and every key has a recorded hash to clear against.
    delivery.flush(
        &session,
        &[
            entry("a", &broken, SeverityFloor::Warning),
            entry("b", &broken, SeverityFloor::Warning),
        ],
    );
    delivery.flush(
        &session,
        &[
            entry("c", &broken, SeverityFloor::Warning),
            entry("d", &broken, SeverityFloor::Warning),
        ],
    );

    // Now all four are fixed at once, under a budget of two.
    let report = delivery.flush(
        &session,
        &[
            entry("a", &[], SeverityFloor::Warning),
            entry("b", &[], SeverityFloor::Warning),
            entry("c", &[], SeverityFloor::Warning),
            entry("d", &[], SeverityFloor::Warning),
        ],
    );

    assert_eq!(
        report.cleared,
        vec!["a".to_string(), "b".to_string()],
        "max_total is one shared context budget and a cleared line spends \
         from it like any other; a workspace-wide fix could otherwise emit \
         up to a thousand of them. The pass is key-ordered, so which two \
         land is reproducible"
    );
    assert_eq!(report.omitted, 2);
}

#[test]
fn test_a_deferred_cleared_file_is_offered_again() {
    let mut delivery = DiagnosticsDelivery::new(DiagnosticsConfig {
        max_total: 2,
        ..DiagnosticsConfig::default()
    });
    let session = session("s");
    let broken = vec![diagnostic(0, DiagnosticSeverity::Error, "boom")];

    delivery.flush(
        &session,
        &[
            entry("a", &broken, SeverityFloor::Warning),
            entry("b", &broken, SeverityFloor::Warning),
        ],
    );
    delivery.flush(
        &session,
        &[
            entry("c", &broken, SeverityFloor::Warning),
            entry("d", &broken, SeverityFloor::Warning),
        ],
    );

    let all_clean = [
        entry("a", &[], SeverityFloor::Warning),
        entry("b", &[], SeverityFloor::Warning),
        entry("c", &[], SeverityFloor::Warning),
        entry("d", &[], SeverityFloor::Warning),
    ];
    let first = delivery.flush(&session, &all_clean);
    let second = delivery.flush(&session, &all_clean);

    assert_eq!(
        (first.cleared.len(), second.cleared.len()),
        (2, 2),
        "the budget splits the four across two flushes; clearing all four \
         in one would satisfy the union below while spending no budget"
    );

    let mut seen: Vec<String> = first.cleared;
    seen.extend(second.cleared);
    seen.sort();
    assert_eq!(
        seen,
        vec![
            "a".to_string(),
            "b".to_string(),
            "c".to_string(),
            "d".to_string()
        ],
        "a deferred cleared file keeps its record entry, which is the same \
         deferral rule a deferred changed file already follows"
    );
}

#[test]
fn test_a_muted_file_is_dropped_from_the_record_rather_than_reported_fixed() {
    let mut delivery = DiagnosticsDelivery::new(DiagnosticsConfig::default());
    let session = session("s");
    let broken = vec![diagnostic(0, DiagnosticSeverity::Error, "boom")];

    let _ = delivery.flush(&session, &[entry("a", &broken, SeverityFloor::Error)]);
    let report = delivery.flush(&session, &[entry("a", &broken, SeverityFloor::Off)]);

    assert!(
        report.cleared.is_empty(),
        "the file still has an error; only the floor changed, and telling the \
         agent its problems are gone is a lie"
    );
    assert!(report.changed.is_empty());
}

#[test]
fn test_a_clear_that_empties_the_budget_defers_the_next_file_whole() {
    let mut delivery = DiagnosticsDelivery::new(DiagnosticsConfig {
        max_total: 1,
        ..DiagnosticsConfig::default()
    });
    let session = session("s");
    let broken = vec![diagnostic(0, DiagnosticSeverity::Error, "boom")];

    delivery.flush(&session, &[entry("a.rs", &broken, SeverityFloor::Warning)]);

    let report = delivery.flush(
        &session,
        &[
            entry("a.rs", &[], SeverityFloor::Warning),
            entry("b.rs", &broken, SeverityFloor::Warning),
        ],
    );
    assert_eq!(report.cleared, vec!["a.rs".to_string()]);
    assert!(
        report.changed.is_empty(),
        "the clear spent the whole budget, so b.rs waits for a flush that \
         can carry it rather than being sent empty"
    );

    let next = delivery.flush(&session, &[entry("b.rs", &broken, SeverityFloor::Warning)]);
    assert_eq!(
        next.changed.len(),
        1,
        "a deferred file is offered again, and the record must not claim it \
         was already delivered"
    );
    assert_eq!(next.changed[0].diagnostics.len(), 1);
    assert_eq!(next.changed[0].omitted, 0);
}

#[test]
fn test_a_partly_spent_budget_defers_rather_than_truncating() {
    let mut delivery = DiagnosticsDelivery::new(DiagnosticsConfig {
        max_total: 2,
        ..DiagnosticsConfig::default()
    });
    let session = session("s");
    let one = vec![diagnostic(0, DiagnosticSeverity::Error, "boom")];
    let five: Vec<_> = (1..6)
        .map(|i| diagnostic(i, DiagnosticSeverity::Error, "boom"))
        .collect();

    let first = delivery.flush(
        &session,
        &[
            entry("a.rs", &one, SeverityFloor::Warning),
            entry("b.rs", &five, SeverityFloor::Warning),
        ],
    );
    assert_eq!(first.changed.len(), 1, "a.rs fits and is delivered");
    assert_eq!(first.changed[0].key, "a.rs");
    assert_eq!(
        first.omitted, 1,
        "a.rs spent one of the two, so what is left shows less of b.rs \
         than a fresh budget would; b.rs waits rather than being cut to a \
         fifth of itself and recorded as delivered"
    );

    let second = delivery.flush(&session, &[entry("b.rs", &five, SeverityFloor::Warning)]);
    assert_eq!(second.changed.len(), 1);
    assert_eq!(
        second.changed[0].diagnostics.len(),
        2,
        "the whole budget is the most any flush can offer this file"
    );
    assert_eq!(second.changed[0].omitted, 3);
}

#[test]
fn test_a_genuinely_fixed_file_is_still_reported_cleared() {
    let mut delivery = DiagnosticsDelivery::new(DiagnosticsConfig::default());
    let session = session("s");
    let broken = vec![diagnostic(0, DiagnosticSeverity::Error, "boom")];

    let _ = delivery.flush(&session, &[entry("a", &broken, SeverityFloor::Error)]);
    let report = delivery.flush(&session, &[entry("a", &[], SeverityFloor::Error)]);

    assert_eq!(report.cleared, vec!["a".to_string()]);
}

fn keys_of(report: &FlushReport) -> Vec<String> {
    let changed = report.changed.iter().map(|file| file.key.clone());
    changed.chain(report.cleared.iter().cloned()).collect()
}

fn says_nothing(report: &FlushReport) -> bool {
    report.changed.is_empty() && report.cleared.is_empty() && report.omitted == 0
}

#[test]
fn a_small_budget_names_every_file_exactly_once() {
    let mut delivery = DiagnosticsDelivery::new(DiagnosticsConfig {
        max_total: 2,
        ..DiagnosticsConfig::default()
    });
    let session = session("s");
    let errors = vec![diagnostic(1, DiagnosticSeverity::Error, "boom")];
    delivery.flush(&session, &[entry("gone.rs", &errors, SeverityFloor::Warning)]);
    delivery.flush(&session, &[entry("mute.rs", &errors, SeverityFloor::Warning)]);

    let entries = [
        entry("a.rs", &errors, SeverityFloor::Warning),
        entry("b.rs", &errors, SeverityFloor::Warning),
        entry("c.rs", &errors, SeverityFloor::Warning),
        entry("gone.rs", &[], SeverityFloor::Warning),
        entry("mute.rs", &errors, SeverityFloor::Off),
    ];
    let mut named: Vec<String> = Vec::new();
    for _ in 0..entries.len() {
        named.extend(keys_of(&delivery.flush(&session, &entries)));
    }
    named.sort();
    assert_eq!(named, ["a.rs", "b.rs", "c.rs", "gone.rs"]);
    assert!(says_nothing(&delivery.flush(&session, &entries)));
    assert!(says_nothing(&delivery.flush(&session, &entries)));
}

#[test]
fn a_file_that_one_flush_names_is_not_named_by_the_next() {
    let mut delivery = DiagnosticsDelivery::new(DiagnosticsConfig {
        max_total: 1,
        ..DiagnosticsConfig::default()
    });
    let session = session("s");
    let errors = vec![diagnostic(1, DiagnosticSeverity::Error, "boom")];
    let entries = [
        entry("a.rs", &errors, SeverityFloor::Warning),
        entry("b.rs", &errors, SeverityFloor::Warning),
    ];
    let first = delivery.flush(&session, &entries);
    assert_eq!((keys_of(&first), first.omitted), (vec!["a.rs".to_string()], 1));
    let second = delivery.flush(&session, &entries);
    assert_eq!((keys_of(&second), second.omitted), (vec!["b.rs".to_string()], 0));
    assert!(says_nothing(&delivery.flush(&session, &entries)));
}

#[test]
fn of_two_tokens_the_last_alone_acknowledges() {
    let mut delivery = DiagnosticsDelivery::new(DiagnosticsConfig::default());
    let session = session("s");
    let errors = vec![diagnostic(1, DiagnosticSeverity::Error, "boom")];
    let entries = [entry("a.rs", &errors, SeverityFloor::Warning)];
    let (first, old_token) = delivery.stage(&session, &entries);
    assert!(delivery.is_staged(&session));
    let (second, token) = delivery.stage(&session, &entries);
    assert_eq!(keys_of(&first), ["a.rs"]);
    assert_eq!(keys_of(&second), ["a.rs"]);
    assert_eq!((old_token, token), (Some(1), Some(2)));
    assert!(!delivery.commit(&session, 1));
    assert!(delivery.commit(&session, 2));
    let (third, token) = delivery.stage(&session, &entries);
    assert!(says_nothing(&third));
    assert_eq!(token, None);
    assert!(!delivery.is_staged(&session));

    let muted = [entry("a.rs", &errors, SeverityFloor::Off)];
    let (report, token) = delivery.stage(&session, &muted);
    assert!(says_nothing(&report), "a muted file is forgotten without a word");
    assert_eq!(token, Some(3), "and what is on record of it is acknowledged away");
}

#[test]
fn the_baseline_is_what_a_new_record_was_told_and_no_other() {
    let mut delivery = DiagnosticsDelivery::new(DiagnosticsConfig {
        max_total: 0,
        ..DiagnosticsConfig::default()
    });
    let errors = vec![diagnostic(1, DiagnosticSeverity::Error, "boom")];
    let others = vec![diagnostic(2, DiagnosticSeverity::Error, "other")];
    let old = session("old");
    delivery.flush(&old, &[entry("same.rs", &others, SeverityFloor::Warning)]);
    let mut baseline = Table::new();
    for key in ["same.rs", "gone.rs", "new.rs"] {
        let hash = DiagnosticsDelivery::visible_hash(&errors, SeverityFloor::Warning);
        baseline.put(key.to_string(), hash.unwrap());
    }
    delivery.set_baseline(baseline);
    let entries = [
        entry("gone.rs", &[], SeverityFloor::Warning),
        entry("new.rs", &others, SeverityFloor::Warning),
        entry("same.rs", &errors, SeverityFloor::Warning),
    ];
    let report = delivery.flush(&session("new"), &entries);
    assert_eq!(report.cleared, ["gone.rs"]);
    assert_eq!(report.changed.len(), 1);
    assert_eq!(report.changed[0].key, "new.rs");

    let report = delivery.flush(&old, &entries);
    assert!(report.cleared.is_empty(), "its own history holds nothing of it");
    let changed: Vec<&str> = report.changed.iter().map(|file| file.key.as_str()).collect();
    assert_eq!(changed, ["new.rs", "same.rs"]);
}

#[test]
fn the_counters_say_whether_they_suffice() {
    let mut delivery = DiagnosticsDelivery::new(DiagnosticsConfig::default());
    assert!(delivery.can_report(1_000));
    assert!(delivery.can_claim(1_000));
    let errors = vec![diagnostic(1, DiagnosticSeverity::Error, "boom")];
    delivery.flush(&session("s"), &[entry("a.rs", &errors, SeverityFloor::Warning)]);
    assert!(!delivery.is_registered(&session("s")));
    assert!(delivery.keeps_nothing());
    assert_eq!(delivery.claims(), 0);
}

#[test]
fn entries_are_passed_over_in_the_order_given() {
    let mut delivery = DiagnosticsDelivery::new(DiagnosticsConfig {
        max_total: 1,
        ..DiagnosticsConfig::default()
    });
    let session = session("s");
    let errors = vec![diagnostic(1, DiagnosticSeverity::Error, "boom")];
    let entries = [
        entry("z.rs", &errors, SeverityFloor::Warning),
        entry("a.rs", &errors, SeverityFloor::Warning),
    ];
    let first = delivery.flush(&session, &entries);
    assert_eq!((keys_of(&first), first.omitted), (vec!["z.rs".to_string()], 1));
    let second = delivery.flush(&session, &entries);
    assert_eq!((keys_of(&second), second.omitted), (vec!["a.rs".to_string()], 0));
}

#[test]
fn a_file_given_twice_is_compared_twice() {
    let mut delivery = DiagnosticsDelivery::new(DiagnosticsConfig::default());
    let session = session("s");
    let errors = vec![diagnostic(1, DiagnosticSeverity::Error, "boom")];
    let others = vec![diagnostic(2, DiagnosticSeverity::Error, "other")];
    let entries = [
        entry("a.rs", &errors, SeverityFloor::Warning),
        entry("a.rs", &others, SeverityFloor::Warning),
    ];
    let first = delivery.flush(&session, &entries);
    assert_eq!(keys_of(&first), ["a.rs", "a.rs"]);
    let second = delivery.flush(&session, &entries);
    assert_eq!(keys_of(&second), ["a.rs"]);
    assert_eq!(second.changed[0].diagnostics[0].message, "boom");
}
