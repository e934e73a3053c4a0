use shulkerbox::command::Command;
use shulkerbox::compile::{CompileOptions, CompilerState, FunctionCompilerState};
use shulkerbox::datapack::Datapack;
use shulkerbox::function::Function;
use shulkerbox::namespace::Namespace;
use shulkerbox::queue::ExtendableQueue;
use shulkerbox::tag::{TagType, TagValue};
use shulkerbox::text::{decimal, has_prefix, join_lines, lines};
use shulkerbox::validate::{first_word_of, known_range, validate_raw_cmd};
use shulkerbox::vfs::{VFile, VFolder};

#[test]
fn namespace_tags_are_created_once_per_name_and_type() {
    let mut ns = Namespace::new("foo");
    assert!(ns.tag("a", TagType::Item).is_none());
    ns.tag_mut("a", TagType::Item).add_value(TagValue::simple("x:y"));
    ns.tag_mut("a", TagType::Item).add_value(TagValue::simple("x:z"));
    ns.tag_mut("a", TagType::Block).set_replace(true);
    assert_eq!(ns.get_tags().len(), 2);
    assert_eq!(ns.tag("a", TagType::Item).expect("tag").get_values().len(), 2);
    assert!(ns.tag("a", TagType::Block).expect("tag").get_replace());
    assert!(!ns.tag("a", TagType::Item).expect("tag").get_replace());
}

#[test]
fn functions_keep_their_commands() {
    let mut ns = Namespace::new("foo");
    ns.function_mut("f").add_command(Command::raw("say 1"));
    ns.function_mut("f").add_command(Command::raw("say 2"));
    let f = ns.function("f").expect("function");
    assert_eq!(f.get_commands().len(), 2);
    assert_eq!(f.name(), "f");
    assert_eq!(f.namespace(), "foo");
    assert_eq!(ns.get_functions().len(), 1);
    let mut g = Function::new("ns", "g");
    g.get_commands_mut().push(Command::raw("say g"));
    assert_eq!(g.get_commands().len(), 1);
    assert!(matches!(g.call_command(), Command::Raw(ref s) if s == "function ns:g"));
    let file = g.compile(&CompileOptions::default(), &CompilerState::default(), &mut FunctionCompilerState::default());
    assert_eq!(file.as_text(), Some("say g"));
}

#[test]
fn datapack_tick_and_load_tags() {
    let mut dp = Datapack::new(Datapack::LATEST_FORMAT);
    dp.add_tick("a:tick");
    dp.add_load("a:load");
    dp.add_tick("b:tick");
    let ns = dp.namespace("minecraft").expect("namespace");
    assert_eq!(ns.tag("tick", TagType::Function).expect("tick").get_values().len(), 2);
    assert_eq!(ns.tag("load", TagType::Function).expect("load").get_values().len(), 1);
    assert!(dp.namespace("other").is_none());
}

#[test]
fn queue_operations() {
    let mut q = ExtendableQueue::new();
    assert!(q.is_empty());
    q.push("a");
    q.push("b");
    assert_eq!(q.pop_front(), Some("a"));
    assert_eq!(q.len(), 1);
    q.clear();
    assert_eq!(q.pop_front(), None);
}

#[test]
fn mutable_lookups_in_folders() {
    let mut folder = VFolder::new();
    folder.add_file("a/b.txt", VFile::text("x"));
    if let Some(f) = folder.get_file_mut("a/b.txt") {
        *f = VFile::text("y");
    }
    assert_eq!(folder.get_file("a/b.txt").and_then(|f| f.as_text()), Some("y"));
    folder.get_folder_mut("a").expect("folder").add_file("c.txt", VFile::default());
    assert_eq!(folder.get_file("a/c.txt").and_then(|f| f.as_text()), Some(""));
    assert!(folder.get_folder_mut("b").is_none());
}

#[test]
fn text_helpers() {
    assert_eq!(decimal(0), "0");
    assert_eq!(decimal(48), "48");
    assert_eq!(decimal(1234567), "1234567");
    assert_eq!(lines(""), vec!["".to_string()]);
    assert_eq!(lines("a\n\nb\n"), vec!["a".to_string(), "".to_string(), "b".to_string(), "".to_string()]);
    assert_eq!(join_lines(&vec!["a".to_string(), "b".to_string()]), "a\nb");
    assert_eq!(join_lines(&vec![]), "");
    assert!(has_prefix("sb/foo", "sb/"));
    assert!(!has_prefix("s", "sb/"));
}

#[test]
fn command_words_and_ranges() {
    assert_eq!(first_word_of("  \tsay hi"), Some("say"));
    assert_eq!(first_word_of(" \n "), None);
    assert_eq!(known_range("say"), Some((0, Datapack::LATEST_FORMAT)));
    assert_eq!(known_range("placefeature"), Some((9, 9)));
    assert_eq!(known_range("frobnicate"), None);
    assert!(validate_raw_cmd("return 1", &(15..=48)));
    assert!(!validate_raw_cmd("return 1", &(14..=48)));
    assert!(!validate_raw_cmd("transfer x", &(41..=49)));
}

#[test]
fn tag_type_names() {
    assert_eq!(TagType::Entity.name(), "entity_type");
    assert_eq!(TagType::Other("custom/path".to_string()).name(), "custom/path");
    assert_eq!(TagType::Entity.get_directory_name(10), "entity_types");
}

#[test]
fn existing_folder_is_stored_at_deep_paths() {
    let mut inner = VFolder::new();
    inner.add_file("x.txt", VFile::text("x"));
    let mut folder = VFolder::new();
    folder.add_existing_folder("a/b/c", inner);
    assert_eq!(folder.get_file("a/b/c/x.txt").and_then(|f| f.as_text()), Some("x"));
}

#[test]
fn function_mut_leaves_other_names_alone() {
    let mut ns = Namespace::new("foo");
    ns.function_mut("baz").add_command(Command::raw("say baz"));
    let _ = ns.function_mut("bar");
    assert_eq!(ns.function("baz").expect("baz").get_commands().len(), 1);
    assert_eq!(ns.function("bar").expect("bar").get_commands().len(), 0);
    assert!(ns.function("qux").is_none());
}
