use shulkerbox::compile::{CompileOptions, CompilerState, LATEST_FORMAT};
use shulkerbox::command::{Command, Execute};
use shulkerbox::condition::Condition;
use shulkerbox::datapack::{generate_mcmeta, Datapack};
use shulkerbox::namespace::{function_directory_name, Namespace};
use shulkerbox::queue::ExtendableQueue;
use shulkerbox::tag::{Tag, TagType, TagValue};
use shulkerbox::vfs::{VFile, VFolder};

#[test]
fn test_namespace() {
    let mut namespace = Namespace::new("foo");

    assert_eq!(namespace.get_name(), "foo");
    assert_eq!(namespace.get_functions().len(), 0);
    assert_eq!(namespace.get_tags().len(), 0);

    let _ = namespace.function_mut("bar");
    assert_eq!(namespace.get_functions().len(), 1);

    assert!(namespace.function("bar").is_some());
    assert!(namespace.function("baz").is_none());
}

#[test]
fn test_queue() {
    let mut queue = ExtendableQueue::default();
    queue.push(1);
    queue.push(2);
    queue.push(3);

    assert_eq!(queue.len(), 3);

    let mut count = 0;

    while let Some(el) = queue.next() {
        count += el;

        if el == 1 {
            queue.extend(vec![4, 5, 6]);
        }
    }

    assert_eq!(count, 21);
    assert!(queue.is_empty());
}

#[test]
fn test_from() {
    let base = vec![1, 2, 3, 4];
    let mut queue = ExtendableQueue::from_vec(base.clone());

    let mut drained = Vec::new();
    while let Some(x) = queue.next() {
        drained.push(x);
    }
    assert!(drained.into_iter().zip(base).all(|(a, b)| a == b));
}

#[test]
fn test_flatten() {
    let mut v_folder = VFolder::new();
    v_folder.add_file("a.txt", VFile::text("a"));
    v_folder.add_file("a/b.txt", VFile::text("b"));
    v_folder.add_file("a/b/c.txt", VFile::text("c"));

    let flattened = v_folder.flatten();
    assert_eq!(flattened.len(), 3);
    assert!(flattened.iter().any(|(path, _)| path == "a.txt"));
    assert!(flattened.iter().any(|(path, _)| path == "a/b.txt"));
    assert!(flattened.iter().any(|(path, _)| path == "a/b/c.txt"));
}

#[test]
fn test_merge() {
    let mut first = VFolder::new();
    first.add_file("a.txt", VFile::text("a"));
    first.add_file("a/b.txt", VFile::text("b"));

    let mut second = VFolder::new();
    second.add_file("a.txt", VFile::text("a2"));
    second.add_file("c.txt", VFile::text("c"));
    second.add_file("c/d.txt", VFile::text("d"));
    second.add_file("a/e.txt", VFile::text("e"));

    let replaced = first.merge(second);
    assert_eq!(replaced.len(), 1);

    assert!(first.get_file("a.txt").is_some());
    assert!(first.get_file("a/b.txt").is_some());
    assert!(first.get_file("c.txt").is_some());
    assert!(first.get_file("c/d.txt").is_some());
    assert!(first.get_file("a/e.txt").is_some());
}

#[test]
fn folders_and_files_by_path() {
    let mut v_folder = VFolder::new();
    v_folder.add_file("foo.txt", VFile::text("foo"));
    assert_eq!(v_folder.get_files().len(), 1);
    assert_eq!(v_folder.get_folders().len(), 0);
    v_folder.add_file("bar/baz.txt", VFile::text("baz"));
    v_folder.add_file("bar/foo.bin", VFile::Binary(vec![1, 2, 3, 4]));
    assert_eq!(v_folder.get_files().len(), 1);
    assert_eq!(v_folder.get_folders().len(), 1);
    assert_eq!(v_folder.get_file("bar/baz.txt").and_then(|f| f.as_text()), Some("baz"));
    assert_eq!(v_folder.get_folder("bar").expect("folder").get_file("foo.bin").map(|f| f.as_bytes().to_vec()), Some(vec![1, 2, 3, 4]));
    v_folder.add_folder("x/y/z");
    assert!(v_folder.get_folder("x/y/z").is_some());
    assert!(v_folder.get_folder("x/y").is_some());
    assert!(v_folder.get_file("missing.txt").is_none());
    assert_eq!(VFile::text("hé").as_bytes(), "hé".as_bytes());
}

#[test]
fn test_tag() {
    let mut tag = Tag::new(false);
    assert!(!tag.get_replace());

    tag.set_replace(true);
    assert!(tag.get_replace());

    tag.add_value(TagValue::simple("foo:bar"));
    tag.add_value(TagValue::Advanced {
        id: "bar:baz".to_string(),
        required: true,
    });

    assert_eq!(tag.get_values().len(), 2);

    let compiled = tag.compile(&CompileOptions::default(), &CompilerState::default());

    if let VFile::Text(text) = compiled {
        let deserialized = serde_json::from_str::<serde_json::Value>(&text).expect("Failed to deserialize tag");
        let expected = serde_json::from_str::<serde_json::Value>(
            r#"{"replace": true, "values": ["foo:bar", {"id": "bar:baz", "required": true}]}"#,
        )
        .expect("expected value");
        assert_eq!(deserialized, expected);
        assert_eq!(text, r#"{"replace":true,"values":["foo:bar",{"id":"bar:baz","required":true}]}"#);
    } else {
        panic!("tag should be text");
    }
}

#[test]
fn tag_values_escape_text() {
    assert_eq!(TagValue::simple("a\"b").compile(), "\"a\\\"b\"");
    let empty = Tag::new(false).compile_no_state(&CompileOptions::default());
    assert_eq!(empty.as_text(), Some(r#"{"replace":false,"values":[]}"#));
}

#[test]
fn tag_directories() {
    assert_eq!(TagType::Block.get_directory_name(42), "blocks");
    assert_eq!(TagType::Block.get_directory_name(43), "block");
    assert_eq!(TagType::Function.get_directory_name(44), "functions");
    assert_eq!(TagType::Function.get_directory_name(45), "function");
    assert_eq!(TagType::Other("x/y".to_string()).get_directory_name(50), "x/y");
    assert_eq!(function_directory_name(44), "functions");
    assert_eq!(function_directory_name(45), "function");
}

#[test]
fn test_datapack() {
    let mut dp = Datapack::new(Datapack::LATEST_FORMAT)
        .with_description("My datapack")
        .with_template_folder(VFolder::new());

    assert_eq!(dp.namespace_count(), 0);

    let _ = dp.namespace_mut("foo");
    assert_eq!(dp.namespace_count(), 1);
}

#[test]
fn test_generate_mcmeta() {
    let dp = &Datapack::new(Datapack::LATEST_FORMAT).with_description("foo");
    let mcmeta = generate_mcmeta(dp, &CompileOptions::default());

    let json = if let VFile::Text(text) = mcmeta {
        serde_json::from_str::<serde_json::Value>(&text).unwrap()
    } else {
        panic!("mcmeta should be text not binary")
    };

    let pack = json
        .as_object()
        .expect("mcmeta is not object")
        .get("pack")
        .expect("no pack value")
        .as_object()
        .expect("mcmeta pack is not object");
    assert_eq!(pack.get("description").expect("no key pack.description").as_str(), Some("foo"));
    assert_eq!(
        pack.get("pack_format").expect("no key pack.pack_format").as_u64(),
        Some(u64::from(Datapack::LATEST_FORMAT))
    );
}

#[test]
fn mcmeta_with_supported_formats() {
    let dp = Datapack::new(16).with_description("d").with_supported_formats(16..=20);
    let mcmeta = generate_mcmeta(&dp, &CompileOptions::default());
    assert_eq!(
        mcmeta.as_text(),
        Some(r#"{"pack":{"description":"d","pack_format":16,"supported_formats":{"max_inclusive":20,"min_inclusive":16}}}"#)
    );
}

#[test]
fn datapack_compiles_functions_hoisted_units_and_tags() {
    let mut dp = Datapack::new(LATEST_FORMAT).with_supported_formats(16..=48);
    let ns = dp.namespace_mut("test");
    let foo = ns.function_mut("foo");
    foo.add_command(Command::raw("say Hello, world!"));
    foo.add_command(Command::Group(vec![Command::raw("say a"), Command::raw("say b")]));
    let call = ns.function_mut("foo").call_command();
    ns.function_mut("bar").add_command(call);
    ns.function_mut("bar").add_command(Command::Execute(Execute::As(
        "@a".to_string(),
        Box::new(Execute::If(
            Condition::atom("block ~ ~ ~ minecraft:stone"),
            Box::new(Execute::Run(Box::new(Command::raw("say bar")))),
            None,
        )),
    )));
    dp.add_load("test:foo");
    dp.add_tick("test:bar");
    dp.add_custom_file("extra/readme.txt", VFile::text("hi"));

    assert!(dp.validate());

    let out = dp.compile(&CompileOptions::default().with_debug(false));
    let foo_text = out.get_file("data/test/function/foo.mcfunction").and_then(|f| f.as_text()).expect("foo");
    let lines: Vec<&str> = foo_text.split('\n').collect();
    assert_eq!(lines.len(), 2);
    assert_eq!(lines[0], "say Hello, world!");
    assert!(lines[1].starts_with("function test:sb/foo/"));
    let unit = &lines[1]["function test:".len()..];
    let unit_text = out
        .get_file(&format!("data/test/function/{unit}.mcfunction"))
        .and_then(|f| f.as_text())
        .expect("unit");
    assert_eq!(unit_text, "say a\nsay b");
    let bar_text = out.get_file("data/test/function/bar.mcfunction").and_then(|f| f.as_text()).expect("bar");
    assert_eq!(bar_text, "function test:foo\nexecute as @a if block ~ ~ ~ minecraft:stone run say bar");
    assert!(out.get_file("data/minecraft/tags/function/load.json").is_some());
    assert!(out.get_file("data/minecraft/tags/function/tick.json").is_some());
    assert!(out.get_file("pack.mcmeta").is_some());
    assert!(out.get_file("extra/readme.txt").is_some());

    let old = Datapack::new(10);
    let mut old = old;
    old.namespace_mut("x").function_mut("f").add_command(Command::raw("tick freeze"));
    assert!(!old.validate());
}
