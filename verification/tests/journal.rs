use std::collections::BTreeMap;

use mcpls_core::error::Error;
use mcpls_core::journal::{
    execute, perform, purge_trash, reverse, temp_name, FileAction, Progress, Reply, RunNext, Step,
    TempPlace, RENAME_ATTEMPTS,
};

/// A directory tree in memory: each file with its content and its mode.
#[derive(Clone, Debug, Default, PartialEq)]
struct Tree {
    files: BTreeMap<String, (String, u32)>,
    /// Paths whose renames fail, with how many more times.
    stuck: BTreeMap<String, usize>,
    renames: usize,
    pauses: usize,
}

const PLAIN: u32 = 0o644;

fn parent(path: &str) -> &str {
    &path[..path.rfind('/').unwrap()]
}

impl Tree {
    fn with(files: &[(&str, &str)]) -> Self {
        let mut tree = Self::default();
        for (path, content) in files {
            tree.files
                .insert(path.to_string(), (content.to_string(), PLAIN));
        }
        tree
    }

    fn read(&self, path: &str) -> Option<&str> {
        self.files.get(path).map(|(content, _)| content.as_str())
    }

    /// Only `/w` exists.
    fn act(&mut self, action: &FileAction) -> Reply {
        match action {
            FileAction::Write { path, content } => {
                if parent(path) != "/w" {
                    return Reply::Failed("no such directory".to_string());
                }
                let mode = self.files.get(path).map_or(PLAIN, |(_, mode)| *mode);
                self.files.insert(path.clone(), (content.clone(), mode));
                Reply::Done
            }
            FileAction::CopyPermissions { from, to } => {
                let Some(mode) = self.files.get(from).map(|(_, mode)| *mode) else {
                    return Reply::Failed("no such file".to_string());
                };
                self.files.get_mut(to).unwrap().1 = mode;
                Reply::Done
            }
            FileAction::Probe { path } => {
                if self.files.contains_key(path) {
                    Reply::Done
                } else {
                    Reply::Failed("no such file".to_string())
                }
            }
            FileAction::Rename { from, to, pause } => {
                self.renames += 1;
                self.pauses += usize::from(*pause);
                if let Some(times) = self.stuck.get_mut(to) {
                    if *times > 0 {
                        *times -= 1;
                        return Reply::Failed("sharing violation".to_string());
                    }
                }
                let Some(file) = self.files.remove(from) else {
                    return Reply::Failed("no such file".to_string());
                };
                self.files.insert(to.clone(), file);
                Reply::Done
            }
            FileAction::Remove { path } => match self.files.remove(path) {
                Some(_) => Reply::Done,
                None => Reply::Failed("no such file".to_string()),
            },
        }
    }
}

fn place(step: &Step) -> TempPlace {
    match step {
        Step::Write { path, .. } => {
            let at = path.rfind('/').unwrap();
            TempPlace::At(format!("{}/{}", &path[..at], temp_name(&path[at + 1..])))
        }
        _ => TempPlace::NoParent,
    }
}

fn drive(tree: &mut Tree, next: impl Fn(&Vec<Reply>) -> Progress) -> Reply {
    let mut replies = vec![];
    loop {
        match next(&replies) {
            Progress::Act(action) => replies.push(tree.act(&action)),
            Progress::Over(reply) => return reply,
        }
    }
}

/// Executes the steps against the tree.
fn run(tree: &mut Tree, steps: &Vec<Step>) -> Result<(), Error> {
    let (mut performed, mut reversed) = (vec![], vec![]);
    loop {
        match execute(steps, &performed, &reversed) {
            RunNext::Perform(i) => {
                let place = place(&steps[i]);
                performed.push(drive(tree, |r| perform(&steps[i], &place, r)));
            }
            RunNext::Reverse(i) => {
                let place = place(&steps[i]);
                reversed.push(drive(tree, |r| reverse(&steps[i], &place, r)));
            }
            RunNext::Purge => {
                for trash in purge_trash(steps) {
                    tree.files.remove(&trash);
                }
                return Ok(());
            }
            RunNext::Failed(error) => return Err(error),
        }
    }
}

fn write(path: &str, content: &str, previous: Option<&str>) -> Step {
    Step::Write {
        path: path.to_string(),
        content: content.to_string(),
        previous: previous.map(str::to_string),
    }
}

fn move_to(from: &str, to: &str) -> Step {
    Step::Move { from: from.to_string(), to: to.to_string() }
}

fn trash(path: &str, trash: &str) -> Step {
    Step::Trash { path: path.to_string(), trash: trash.to_string() }
}

#[test]
fn test_writes_new_content_to_each_path() {
    let mut tree = Tree::with(&[("/w/a.txt", "old a"), ("/w/b.txt", "old b")]);
    run(
        &mut tree,
        &vec![
            write("/w/a.txt", "new a", Some("old a")),
            write("/w/b.txt", "new b", Some("old b")),
        ],
    )
    .expect("steps execute");
    assert_eq!(tree.read("/w/a.txt"), Some("new a"));
    assert_eq!(tree.read("/w/b.txt"), Some("new b"));
}

#[test]
fn test_creates_then_edits_the_same_path_in_order() {
    let mut tree = Tree::default();
    run(
        &mut tree,
        &vec![
            write("/w/fresh.rs", "", None),
            write("/w/fresh.rs", "mod inner;\n", Some("")),
        ],
    )
    .expect("steps execute");
    assert_eq!(tree.read("/w/fresh.rs"), Some("mod inner;\n"));
}

#[test]
fn test_preserves_mode_bits() {
    let mut tree = Tree::with(&[("/w/script.sh", "#!/bin/sh\n")]);
    tree.files.get_mut("/w/script.sh").unwrap().1 = 0o755;
    run(
        &mut tree,
        &vec![write(
            "/w/script.sh",
            "#!/bin/sh\necho hi\n",
            Some("#!/bin/sh\n"),
        )],
    )
    .expect("steps execute");
    assert_eq!(
        tree.files["/w/script.sh"].1, 0o755,
        "executable bit survives the rename"
    );
}

#[test]
fn test_moves_a_file_to_a_new_path() {
    let mut tree = Tree::with(&[("/w/old.rs", "content")]);
    run(&mut tree, &vec![move_to("/w/old.rs", "/w/new.rs")]).expect("steps execute");
    assert_eq!(tree.read("/w/old.rs"), None);
    assert_eq!(tree.read("/w/new.rs"), Some("content"));
}

#[test]
fn test_move_onto_an_existing_path_is_refused() {
    let mut tree = Tree::with(&[("/w/old.rs", "source"), ("/w/occupied.rs", "victim")]);
    assert!(run(&mut tree, &vec![move_to("/w/old.rs", "/w/occupied.rs")]).is_err());
    assert_eq!(
        tree.read("/w/occupied.rs"),
        Some("victim"),
        "the destination is never clobbered by a bare move"
    );
}

#[test]
fn test_trashed_file_is_gone_after_a_successful_run() {
    let mut tree = Tree::with(&[("/w/doomed.rs", "bye")]);
    run(
        &mut tree,
        &vec![trash("/w/doomed.rs", "/w/.doomed.rs.mcpls-trash0")],
    )
    .expect("steps execute");
    assert_eq!(tree.read("/w/doomed.rs"), None, "the file is deleted");
    assert!(tree.files.is_empty(), "the trash entry is purged");
}

#[test]
fn test_rolls_back_every_earlier_step_when_a_later_one_fails() {
    let mut tree = Tree::with(&[("/w/edited.rs", "original"), ("/w/doomed.rs", "still here")]);
    let result = run(
        &mut tree,
        &vec![
            write("/w/edited.rs", "changed", Some("original")),
            trash("/w/doomed.rs", "/w/.doomed.rs.mcpls-trash1"),
            // A path whose parent does not exist cannot be written.
            write("/w/missing-dir/bad.rs", "never lands", None),
        ],
    );

    assert!(result.is_err(), "the run fails");
    assert_eq!(
        tree.read("/w/edited.rs"),
        Some("original"),
        "the earlier write is rolled back"
    );
    assert_eq!(
        tree.read("/w/doomed.rs"),
        Some("still here"),
        "the trashed file comes back"
    );
}

#[test]
fn test_rollback_removes_a_file_the_run_created() {
    let mut tree = Tree::default();
    let result = run(
        &mut tree,
        &vec![
            write("/w/created.rs", "new file", None),
            write("/w/missing-dir/bad.rs", "never lands", None),
        ],
    );
    assert!(result.is_err());
    assert_eq!(
        tree.read("/w/created.rs"),
        None,
        "a created file is removed on rollback"
    );
}

#[test]
fn test_leaves_no_temp_files_behind() {
    let mut tree = Tree::with(&[("/w/a.txt", "old")]);
    run(&mut tree, &vec![write("/w/a.txt", "new", Some("old"))]).expect("steps execute");
    assert!(
        !tree.files.keys().any(|path| path.contains("mcpls-tmp")),
        "temp files are cleaned up"
    );
}

#[test]
fn a_rename_that_fails_is_tried_again_after_a_pause() {
    let mut tree = Tree::with(&[("/w/a.txt", "old")]);
    tree.stuck
        .insert("/w/a.txt".to_string(), RENAME_ATTEMPTS - 1);
    run(&mut tree, &vec![write("/w/a.txt", "new", Some("old"))]).expect("the last try succeeds");
    assert_eq!((tree.renames, tree.pauses), (3, 2));

    tree.stuck.insert("/w/a.txt".to_string(), RENAME_ATTEMPTS);
    let result = run(&mut tree, &vec![write("/w/a.txt", "newer", Some("new"))]);
    let Err(Error::ApplyPartiallyFailed { written, reason, .. }) = result else {
        panic!("the run fails");
    };
    assert!(written.is_empty());
    assert_eq!(reason, "renaming onto /w/a.txt: sharing violation");
    assert_eq!(tree.read("/w/a.txt"), Some("new"));
    assert_eq!(tree.files.len(), 1, "the temporary file is removed");
}

#[test]
fn a_rollback_says_what_it_restored_and_what_it_could_not() {
    let mut tree = Tree::with(&[("/w/a.txt", "a"), ("/w/b.txt", "b")]);
    tree.stuck.insert("/w/a.txt".to_string(), 0);
    let steps = vec![
        write("/w/b.txt", "B", Some("b")),
        trash("/w/a.txt", "/w/.a.trash"),
        write("/w/missing-dir/bad.rs", "x", None),
    ];
    tree.stuck.insert("/w/a.txt".to_string(), usize::MAX);
    let Err(Error::ApplyPartiallyFailed { written, restored, unrecovered, reason }) =
        run(&mut tree, &steps)
    else {
        panic!("the run fails");
    };
    assert!(written.is_empty());
    assert_eq!(restored, vec!["/w/b.txt"]);
    assert_eq!(
        unrecovered,
        vec!["/w/a.txt is at /w/.a.trash (sharing violation)"]
    );
    assert!(reason.contains("no such directory"), "{reason}");
}

#[test]
fn a_write_that_cannot_be_undone_is_reported_as_written() {
    let mut tree = Tree::with(&[("/w/a.txt", "a")]);
    let steps = vec![
        write("/w/a.txt", "A", Some("a")),
        write("/w/missing-dir/bad.rs", "x", None),
    ];
    let mut performed = vec![];
    let first = place(&steps[0]);
    performed.push(drive(&mut tree, |r| perform(&steps[0], &first, r)));
    performed.push(Reply::Failed("no".to_string()));
    assert_eq!(execute(&steps, &performed, &vec![]), RunNext::Reverse(0));
    let reversed = vec![Reply::Failed("read-only".to_string())];
    let RunNext::Failed(Error::ApplyPartiallyFailed { written, restored, .. }) =
        execute(&steps, &performed, &reversed)
    else {
        panic!("the run fails");
    };
    assert_eq!(written, vec!["/w/a.txt"]);
    assert!(restored.is_empty());
}

#[test]
fn a_path_without_a_place_for_a_temporary_file_fails() {
    let step = write("/", "x", None);
    assert_eq!(
        perform(&step, &TempPlace::NoParent, &vec![]),
        Progress::Over(Reply::Failed("/ has no parent directory".to_string()))
    );
    assert_eq!(
        perform(&step, &TempPlace::NoFileName, &vec![]),
        Progress::Over(Reply::Failed("/ has no file name".to_string()))
    );
}

#[test]
fn a_clean_rollback_puts_every_file_back() {
    let mut tree = Tree::with(&[
        ("/w/a.rs", "a"),
        ("/w/b.rs", "b"),
        ("/w/c.rs", "c"),
        ("/w/taken.rs", "taken"),
    ]);
    let before = tree.files.clone();
    let steps = vec![
        write("/w/a.rs", "new a", Some("a")),
        write("/w/a.rs", "newer a", Some("new a")),
        write("/w/fresh.rs", "fresh", None),
        move_to("/w/fresh.rs", "/w/moved.rs"),
        trash("/w/b.rs", "/w/.b.trash"),
        move_to("/w/moved.rs", "/w/b.rs"),
        move_to("/w/c.rs", "/w/taken.rs"),
    ];
    let Err(Error::ApplyPartiallyFailed { written, restored, unrecovered, .. }) =
        run(&mut tree, &steps)
    else {
        panic!("the last step cannot be performed");
    };
    assert!(written.is_empty() && unrecovered.is_empty());
    assert_eq!(restored.len(), 6);
    assert_eq!(tree.files, before);
}
