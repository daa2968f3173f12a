use std::cmp::Ordering;

use mcpls_core::config::ConfigSource;
use mcpls_core::handshake::{
    compare_builds, framed, numeric, ConfigStamp, ConnectionKind, Handshake, HandshakeReply,
    LineReader, LineStep, Refusal, MAX_LINE, PROTOCOL, VERSION,
};

#[test]
fn test_builds_order_by_protocol_then_version() {
    assert_eq!(
        compare_builds((1, "0.3.10"), (1, "0.3.9")),
        Ordering::Greater
    );
    assert_eq!(compare_builds((1, "0.3.9"), (1, "0.3.9")), Ordering::Equal);
    assert_eq!(compare_builds((1, "9.0.0"), (2, "0.1.0")), Ordering::Less);
}

#[test]
fn test_only_trusted_against_ignored_conflicts() {
    let stamp = |source, project_ignored| ConfigStamp {
        fingerprint: String::new(),
        source,
        project_ignored,
    };
    let loaded = stamp(ConfigSource::Project, false);
    let ignored = stamp(ConfigSource::Global, true);
    let explicit = stamp(ConfigSource::Explicit, false);
    assert!(loaded.conflicts_with(&ignored));
    assert!(ignored.conflicts_with(&loaded));
    assert!(!loaded.conflicts_with(&explicit));
    assert!(!ignored.conflicts_with(&explicit));
    assert!(!loaded.conflicts_with(&loaded));
}

/// Feeds a reader until it is done, and returns what it took.
fn read_line(bytes: &[u8]) -> (LineStep, usize, Vec<u8>) {
    let mut reader = LineReader::new();
    for (taken, byte) in bytes.iter().enumerate() {
        let step = reader.feed(*byte);
        if step != LineStep::More {
            return (step, taken + 1, reader.bytes().clone());
        }
    }
    (LineStep::More, bytes.len(), reader.bytes().clone())
}

#[test]
fn test_read_consumes_exactly_one_line() {
    let mut wire = framed(b"{\"mcpls\":1}".to_vec());
    wire.extend_from_slice(b"after\n");

    let (step, taken, line) = read_line(&wire);
    assert_eq!(step, LineStep::Complete);
    assert_eq!(line, b"{\"mcpls\":1}");
    assert_eq!(&wire[taken..], b"after\n");
}

#[test]
fn a_line_can_be_as_long_as_the_limit_and_no_longer() {
    let mut fits = vec![b'x'; MAX_LINE];
    fits.push(b'\n');
    let (step, taken, line) = read_line(&fits);
    assert_eq!((step, taken), (LineStep::Complete, MAX_LINE + 1));
    assert_eq!(line.len(), MAX_LINE);

    let long = vec![b'x'; MAX_LINE + 1];
    let (step, taken, _) = read_line(&long);
    assert_eq!((step, taken), (LineStep::TooLong, MAX_LINE + 1));
}

#[test]
fn a_version_is_read_as_numbers() {
    assert_eq!(numeric("0.3.10"), vec![0, 3, 10]);
    assert_eq!(
        compare_builds((1, "1.2"), (1, "1.2.0")),
        Ordering::Less,
        "a prefix comes first"
    );
}

#[test]
fn requests_name_this_build_and_their_kind() {
    let hook = Handshake::hook();
    assert_eq!(hook.mcpls, PROTOCOL);
    assert_eq!(hook.version, VERSION);
    assert_eq!(hook.kind, ConnectionKind::Hook);
    assert!(hook.same_build());
    assert!(!hook.force && !hook.keep && !hook.release);
    assert!(Handshake::forced_shutdown().force);
    assert_eq!(Handshake::shutdown().kind, ConnectionKind::Shutdown);
    assert!(Handshake::keep().keep);
    assert!(Handshake::release().release);

    let mut other = Handshake::hook();
    other.version = "0.0.1".to_string();
    assert!(!other.same_build());
}

#[test]
fn a_reply_names_this_build_and_its_refusal() {
    let reply = HandshakeReply::new(42, 2, Some(Refusal::Attached));
    assert_eq!(reply.mcpls, PROTOCOL);
    assert_eq!(reply.version, VERSION);
    assert_eq!((reply.pid, reply.sessions), (42, 2));
    assert_eq!(reply.refusal, Some(Refusal::Attached));
    assert!(reply.same_build());
}
