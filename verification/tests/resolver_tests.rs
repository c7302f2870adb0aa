use mega::commands::{CommandIndex, EntryKind};
use mega::resolver::{probe, render_path, resolve, Finding, ResolveError, ResolvedCommand};
use mega::transcript::TranscriptTree;

fn strings(words: &[&str]) -> Vec<String> {
    words.iter().map(|word| word.to_string()).collect()
}

fn index(directories: &[&[&str]], files: &[&[&str]]) -> CommandIndex {
    let mut index = CommandIndex::new("commands".to_string());
    for path in directories {
        index.insert(strings(path), EntryKind::Directory);
    }
    for path in files {
        index.insert(strings(path), EntryKind::File);
    }
    index
}

fn found(tree: &[&str], index: &CommandIndex) -> ResolvedCommand {
    match resolve(&TranscriptTree::build(&strings(tree)), index) {
        Ok(command) => command,
        Err(ResolveError::NotFound) => panic!("not found"),
        Err(ResolveError::Malformed { path }) => panic!("malformed at {:?}", path),
    }
}

fn lights() -> CommandIndex {
    index(&[&["open"]], &[&["open", "light.lua"], &["open", "color.lua"]])
}

#[test]
fn lookup_tells_what_stands_at_a_path() {
    let index = lights();
    assert_eq!(index.lookup(&strings(&[]), &"open".to_string()), Some(EntryKind::Directory));
    assert_eq!(index.lookup(&strings(&["open"]), &"light.lua".to_string()), Some(EntryKind::File));
    assert_eq!(index.lookup(&strings(&["open"]), &"light".to_string()), None);
    assert_eq!(index.lookup(&strings(&[]), &"light.lua".to_string()), None);
    assert_eq!(index.lookup(&strings(&["open", "light.lua"]), &"x".to_string()), None);
    assert_eq!(index.root(), "commands");
}

#[test]
fn probe_looks_up_the_word_and_then_its_script() {
    let mut index = index(&[&["open"], &["shut.lua"]], &[&["open", "light.lua"], &["notes"], &["notes.lua"]]);
    index.insert(strings(&["pipe"]), EntryKind::Other);
    index.insert(strings(&["door.lua"]), EntryKind::Other);
    let root = Vec::new();
    assert_eq!(probe(&index, &root, &"open".to_string()), Finding::Directory);
    assert_eq!(probe(&index, &root, &"notes".to_string()), Finding::Stray);
    assert_eq!(probe(&index, &root, &"pipe".to_string()), Finding::Stray);
    assert_eq!(probe(&index, &root, &"notes.lua".to_string()), Finding::Stray);
    assert_eq!(probe(&index, &root, &"shut".to_string()), Finding::Absent);
    assert_eq!(probe(&index, &root, &"door".to_string()), Finding::Absent);
    assert_eq!(probe(&index, &root, &"light".to_string()), Finding::Absent);
    assert_eq!(probe(&index, &strings(&["open"]), &"light".to_string()), Finding::Script);
    assert_eq!(probe(&index, &strings(&["open"]), &"light.lua".to_string()), Finding::Stray);
    assert_eq!(probe(&index, &strings(&["open"]), &"".to_string()), Finding::Absent);
}

#[test]
fn later_entry_replaces_earlier_one() {
    let mut index = CommandIndex::new("commands".to_string());
    index.insert(strings(&["a"]), EntryKind::File);
    index.insert(strings(&["b"]), EntryKind::File);
    index.insert(strings(&["a"]), EntryKind::Directory);
    assert_eq!(index.lookup(&Vec::new(), &"a".to_string()), Some(EntryKind::Directory));
    assert_eq!(index.lookup(&Vec::new(), &"b".to_string()), Some(EntryKind::File));
}

#[test]
fn open_light_resolves_to_its_script_without_arguments() {
    let command = found(&["open light"], &lights());
    assert_eq!(command.path(), "commands/open/light.lua");
    assert_eq!(command.script(), &strings(&["open", "light.lua"]));
    assert_eq!(command.raw_arguments(), &Vec::<Vec<String>>::new());
    assert_eq!(command.arguments(), Vec::<String>::new());
}

#[test]
fn unknown_word_is_not_found() {
    let tree = TranscriptTree::build(&strings(&["xyz"]));
    assert!(matches!(resolve(&tree, &lights()), Err(ResolveError::NotFound)));
    let bare = CommandIndex::new("commands".to_string());
    assert!(matches!(resolve(&tree, &bare), Err(ResolveError::NotFound)));
}

#[test]
fn empty_tree_is_not_found() {
    let tree = TranscriptTree::build(&Vec::new());
    assert!(matches!(resolve(&tree, &lights()), Err(ResolveError::NotFound)));
}

#[test]
fn transcript_that_ends_in_a_directory_is_not_found() {
    let tree = TranscriptTree::build(&strings(&["open"]));
    assert!(matches!(resolve(&tree, &lights()), Err(ResolveError::NotFound)));
}

#[test]
fn stray_file_is_malformed() {
    let index = index(&[&["open"]], &[&["open", "light"], &["open", "light.lua"]]);
    let tree = TranscriptTree::build(&strings(&["open light"]));
    match resolve(&tree, &index) {
        Err(ResolveError::Malformed { path }) => {
            assert_eq!(path, strings(&["open", "light"]));
            assert_eq!(render_path(index.root(), &path), "commands/open/light");
        }
        _ => panic!("expected a malformed tree"),
    }
}

#[test]
fn candidates_are_tried_in_rank_order() {
    let index = index(&[&["open"], &["close"]], &[&["open", "door.lua"], &["close", "door.lua"]]);
    let command = found(&["shut door", "close door", "open door"], &index);
    assert_eq!(command.path(), "commands/close/door.lua");
    let command = found(&["open door", "close door"], &index);
    assert_eq!(command.path(), "commands/open/door.lua");
}

#[test]
fn search_does_not_go_back_to_an_earlier_level() {
    // "open" is entered first and leads nowhere; "close window" is never tried.
    let index = index(&[&["open"], &["close"]], &[&["close", "window.lua"]]);
    let tree = TranscriptTree::build(&strings(&["open window", "close window"]));
    assert!(matches!(resolve(&tree, &index), Err(ResolveError::NotFound)));
}

#[test]
fn first_match_decides_even_when_malformed() {
    let index = index(&[&["b"]], &[&["a"], &["b", "c.lua"]]);
    let tree = TranscriptTree::build(&strings(&["a c", "b c"]));
    assert!(matches!(resolve(&tree, &index), Err(ResolveError::Malformed { .. })));
    let tree = TranscriptTree::build(&strings(&["b c", "a c"]));
    assert!(resolve(&tree, &index).is_ok());
}

#[test]
fn directory_named_like_a_script_is_no_script() {
    let index = index(&[&["light.lua"]], &[]);
    let tree = TranscriptTree::build(&strings(&["light"]));
    assert!(matches!(resolve(&tree, &index), Err(ResolveError::NotFound)));
}

#[test]
fn script_at_the_root_takes_all_later_levels_as_arguments() {
    let index = index(&[], &[&["say.lua"]]);
    let command = found(&["say hello world", "say hello", "stay yellow world again"], &index);
    assert_eq!(command.path(), "commands/say.lua");
    assert_eq!(
        command.raw_arguments(),
        &vec![strings(&["hello", "hello", "yellow"]), strings(&["world", "world"]), strings(&["again"])]
    );
    assert_eq!(command.arguments(), strings(&["hello", "world", "again"]));
}

#[test]
fn slots_count_the_levels_after_the_match() {
    let index = index(&[&["set"], &["set", "light"]], &[&["set", "light", "color.lua"]]);
    for (hypotheses, slots) in [
        (vec!["set light color"], 0usize),
        (vec!["set light color blue"], 1),
        (vec!["set light color dark blue", "set light color navy"], 2),
        (vec!["set light color a b c d e"], 5),
    ] {
        let tree = TranscriptTree::build(&strings(&hypotheses));
        let command = resolve(&tree, &index).ok().unwrap();
        assert_eq!(command.script().len(), 3);
        assert_eq!(command.raw_arguments().len(), slots);
        assert_eq!(command.raw_arguments().len(), tree.depth() - 3);
        assert_eq!(command.arguments().len(), slots);
    }
}

#[test]
fn slots_keep_rank_order_and_repeats_and_skip_gaps() {
    let index = index(&[], &[&["play.lua"]]);
    let command = found(&["play b", "play", "play a", "play b", "x c"], &index);
    assert_eq!(command.raw_arguments(), &vec![strings(&["b", "a", "b", "c"])]);
    assert_eq!(command.arguments(), strings(&["b"]));
}

#[test]
fn arguments_take_the_first_word_present() {
    let index = index(&[], &[&["play.lua"]]);
    let command = found(&["play", "play loud music", "play soft"], &index);
    assert_eq!(command.raw_arguments(), &vec![strings(&["loud", "soft"]), strings(&["music"])]);
    assert_eq!(command.arguments(), strings(&["loud", "music"]));
}

#[test]
fn render_path_joins_with_slashes() {
    assert_eq!(render_path(&"commands".to_string(), &Vec::new()), "commands");
    assert_eq!(render_path(&"commands".to_string(), &strings(&["a"])), "commands/a");
    assert_eq!(render_path(&"root".to_string(), &strings(&["a", "b", "c.lua"])), "root/a/b/c.lua");
}
