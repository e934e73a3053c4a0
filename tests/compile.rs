use shulkerbox::command::{Command, Execute};
use shulkerbox::compile::{CompileOptions, CompilerState, FunctionCompilerState, LATEST_FORMAT};
use shulkerbox::condition::Condition;
use shulkerbox::conditional::combine_conditions_commands;
use shulkerbox::queue::ExtendableQueue;

fn run_compile(ex: &Execute, options: &CompileOptions, state: &mut FunctionCompilerState) -> Vec<String> {
    ex.compile(options, &CompilerState::default(), state)
}

fn check_compile() {
    let compiled = run_compile(
        &Execute::As(
            "@ְa".to_string(),
            Box::new(Execute::If(
                Condition::atom("block ~ ~-1 ~ minecraft:stone"),
                Box::new(Execute::Run(Box::new(Command::raw("say hi")))),
                None,
            )),
        ),
        &CompileOptions::default(),
        &mut FunctionCompilerState::default(),
    );
    assert_eq!(
        compiled,
        vec!["execute as @ְa if block ~ ~-1 ~ minecraft:stone run say hi".to_string()]
    );

    let direct = run_compile(
        &Execute::Run(Box::new(Command::raw("say direct"))),
        &CompileOptions::default(),
        &mut FunctionCompilerState::default(),
    );
    assert_eq!(direct, vec!["say direct".to_string()]);
}

fn check_combine() {
    let conditions = vec!["a".to_string(), "b".to_string(), "c".to_string()];
    let commands = vec![(true, "1".to_string()), (false, "2".to_string())];

    let combined = combine_conditions_commands(&conditions, &commands);
    assert_eq!(
        combined,
        vec![
            (true, "a 1".to_string()),
            (false, "2".to_string()),
            (true, "b 1".to_string()),
            (false, "2".to_string()),
            (true, "c 1".to_string()),
            (false, "2".to_string())
        ]
    );
}

#[test]
fn execute_test_compile() {
    check_compile();
}

#[test]
fn mod_test_compile() {
    check_compile();
}

#[test]
fn execute_test_combine_conditions_commands() {
    check_combine();
}

#[test]
fn conditional_test_combine_conditions_commands() {
    check_combine();
}

#[test]
fn test_raw() {
    let command_a = Command::Raw("say Hello, world!".to_string());
    let command_b = Command::raw("say foo bar");

    let options = &CompileOptions::default();
    let global_state = &CompilerState::default();
    let function_state = &mut FunctionCompilerState::default();

    assert_eq!(
        command_a.compile(options, global_state, function_state),
        vec!["say Hello, world!".to_string()]
    );
    assert_eq!(command_a.get_count(options), 1);
    assert_eq!(
        command_b.compile(options, global_state, function_state),
        vec!["say foo bar".to_string()]
    );
    assert_eq!(command_b.get_count(options), 1);
}

#[test]
fn test_comment() {
    let comment = Command::Comment("this is a comment".to_string());

    let options = &CompileOptions::default();
    let global_state = &CompilerState::default();
    let function_state = &mut FunctionCompilerState::default();

    assert_eq!(
        comment.compile(options, global_state, function_state),
        vec!["#this is a comment".to_string()]
    );
    assert_eq!(comment.get_count(options), 0);
}

#[test]
fn test_validate() {
    let tag = Command::raw("tag @s add foo");

    assert!(tag.validate(&(6..=9)));
    assert!(!tag.validate(&(2..=5)));

    let kill = Command::raw("kill @p");

    assert!(kill.validate(&(2..=40)));
}

#[test]
fn validate_edges() {
    assert!(Command::raw("").validate(&(1..=1)));
    assert!(Command::raw("   unknowncmd x").validate(&(1..=1)));
    assert!(Command::raw("  placefeature x").validate(&(9..=9)));
    assert!(!Command::raw("placefeature x").validate(&(9..=10)));
    assert!(Command::raw("replaceitem a").validate(&(0..=6)));
    assert!(!Command::raw("replaceitem a").validate(&(0..=7)));
    let summon = Execute::Summon("zombie".to_string(), Box::new(Execute::Run(Box::new(Command::raw("say x")))));
    assert!(summon.validate(&(12..=20)));
    assert!(!summon.validate(&(11..=20)));
    let group = Command::Group(vec![Command::raw("say a"), Command::raw("tick freeze")]);
    assert!(group.validate(&(22..=30)));
    assert!(!group.validate(&(21..=30)));
}

#[test]
fn raw_lines_split_on_newlines() {
    let options = CompileOptions::default();
    let mut state = FunctionCompilerState::default();
    let cmd = Command::raw("say a\nsay b");
    assert_eq!(
        cmd.compile(&options, &CompilerState::default(), &mut state),
        vec!["say a".to_string(), "say b".to_string()]
    );
    assert_eq!(cmd.get_count(&options), 2);
}

#[test]
fn debug_lines_follow_the_debug_flag() {
    let cmd = Command::Debug("hello".to_string());
    let on = CompileOptions::default();
    let off = CompileOptions::default().with_debug(false);
    let mut state = FunctionCompilerState::default();
    let lines = cmd.compile(&on, &CompilerState::default(), &mut state);
    assert_eq!(lines.len(), 1);
    assert!(lines[0].starts_with("tellraw @a [{\"text\":\"[\""));
    assert!(lines[0].ends_with("{\"text\":\" hello\",\"color\":\"black\"}]"));
    assert_eq!(cmd.get_count(&on), 1);
    assert!(cmd.compile(&off, &CompilerState::default(), &mut state).is_empty());
    assert_eq!(cmd.get_count(&off), 0);
}

fn hoisted_name(path: &str, uid: usize) -> String {
    let base = path.strip_prefix("sb/").unwrap_or(path);
    let hash = chksum_md5::hash(format!("{base}:{uid}")).to_hex_lowercase();
    format!("sb/{base}/{}", &hash[..16])
}

#[test]
fn group_of_one_line_stays_inline() {
    let options = CompileOptions::default();
    let mut state = FunctionCompilerState::new("foo", "ns", ExtendableQueue::new());
    let group = Command::Group(vec![Command::raw("say a"), Command::Comment("c".to_string())]);
    let lines = group.compile(&options, &CompilerState::default(), &mut state);
    assert_eq!(lines, vec!["say a".to_string(), "#c".to_string()]);
    assert!(state.take_functions().is_empty());
}

#[test]
fn group_of_two_lines_is_hoisted_once() {
    let options = CompileOptions::default();
    let mut state = FunctionCompilerState::new("foo", "ns", ExtendableQueue::new());
    let group = Command::Group(vec![Command::raw("say a"), Command::raw("say b")]);
    let lines = group.compile(&options, &CompilerState::default(), &mut state);
    let name = hoisted_name("foo", 0);
    assert_eq!(lines, vec![format!("function ns:{name}")]);
    let queued = state.take_functions();
    assert_eq!(queued.len(), 1);
    assert_eq!(queued[0].0, name);
    assert_eq!(queued[0].1.get_commands().len(), 2);
    assert_eq!(queued[0].1.name(), name.as_str());
    assert_eq!(queued[0].1.namespace(), "ns");

    let second = group.compile(&options, &CompilerState::default(), &mut state);
    assert_eq!(second, vec![format!("function ns:{}", hoisted_name("foo", 1))]);
}

#[test]
fn hoisting_inside_a_generated_unit_drops_the_staging_segment() {
    let options = CompileOptions::default();
    let mut state = FunctionCompilerState::new("sb/foo/abc", "ns", ExtendableQueue::new());
    let group = Command::Group(vec![Command::raw("say a"), Command::raw("say b")]);
    let lines = group.compile(&options, &CompilerState::default(), &mut state);
    assert_eq!(lines, vec![format!("function ns:{}", hoisted_name("sb/foo/abc", 0))]);
    assert!(lines[0].starts_with("function ns:sb/foo/abc/"));
}

#[test]
fn modifier_chain_prefixes_and_comments() {
    let options = CompileOptions::default();
    let ex = Execute::AsAt(
        "@a".to_string(),
        Box::new(Execute::Positioned(
            "~ ~1 ~".to_string(),
            Box::new(Execute::Runs(vec![Command::raw("say a"), Command::Comment("note".to_string())])),
        )),
    );
    let lines = run_compile(&ex, &options, &mut FunctionCompilerState::default());
    assert_eq!(
        lines,
        vec!["execute as @a at @s positioned ~ ~1 ~ run say a".to_string(), "#note".to_string()]
    );
}

#[test]
fn summon_forces_grouping() {
    let options = CompileOptions::default();
    let mut state = FunctionCompilerState::new("foo", "ns", ExtendableQueue::new());
    let ex = Execute::Summon(
        "zombie".to_string(),
        Box::new(Execute::Runs(vec![Command::raw("say a"), Command::raw("say b")])),
    );
    let lines = run_compile(&ex, &options, &mut state);
    assert_eq!(
        lines,
        vec![format!("execute summon zombie run function ns:{}", hoisted_name("foo", 0))]
    );
    assert_eq!(state.take_functions().len(), 1);
}

#[test]
fn legacy_if_else_uses_a_success_flag() {
    let options = CompileOptions::default().with_pack_format(10);
    let mut state = FunctionCompilerState::new("foo", "ns", ExtendableQueue::new());
    let ex = Execute::If(
        Condition::atom("entity @s"),
        Box::new(Execute::Run(Box::new(Command::raw("say yes")))),
        Some(Box::new(Execute::Run(Box::new(Command::raw("say no"))))),
    );
    let lines = run_compile(&ex, &options, &mut state);
    let uid = chksum_md5::hash("foo:0").to_hex_lowercase();
    let unit = hoisted_name("foo", 1);
    assert_eq!(
        lines,
        vec![
            format!("data remove storage shulkerbox:cond {uid}"),
            format!("execute if entity @s run function ns:{unit}"),
            format!("execute unless data storage shulkerbox:cond {{{uid}:1b}} run say no"),
            format!("data remove storage shulkerbox:cond {uid}"),
        ]
    );
    let queued = state.take_functions();
    assert_eq!(queued.len(), 1);
    assert_eq!(queued[0].1.get_commands().len(), 2);
}

#[test]
fn legacy_disjunction_sets_the_flag_per_clause() {
    let options = CompileOptions::default().with_pack_format(10);
    let mut state = FunctionCompilerState::new("foo", "ns", ExtendableQueue::new());
    let ex = Execute::If(
        Condition::atom("a").or(Condition::atom("b")),
        Box::new(Execute::Run(Box::new(Command::raw("say yes")))),
        None,
    );
    let lines = run_compile(&ex, &options, &mut state);
    let uid = chksum_md5::hash("foo:0").to_hex_lowercase();
    assert_eq!(
        lines,
        vec![
            format!("data remove storage shulkerbox:cond {uid}"),
            format!("execute if a run data modify storage shulkerbox:cond {uid} set value true"),
            format!("execute if b run data modify storage shulkerbox:cond {uid} set value true"),
            format!("execute if data storage shulkerbox:cond {{{uid}:1b}} run say yes"),
            format!("data remove storage shulkerbox:cond {uid}"),
        ]
    );
    assert!(state.take_functions().is_empty());
}

#[test]
fn modern_if_else_returns_early_from_one_unit() {
    let options = CompileOptions::default();
    let mut state = FunctionCompilerState::new("foo", "ns", ExtendableQueue::new());
    let ex = Execute::If(
        Condition::atom("a"),
        Box::new(Execute::Run(Box::new(Command::raw("say one")))),
        Some(Box::new(Execute::If(
            Condition::atom("b"),
            Box::new(Execute::Run(Box::new(Command::raw("say two")))),
            Some(Box::new(Execute::Run(Box::new(Command::raw("say three"))))),
        ))),
    );
    let lines = run_compile(&ex, &options, &mut state);
    let unit = hoisted_name("foo", 0);
    assert_eq!(lines, vec![format!("execute run function ns:{unit}")]);
    let queued = state.take_functions();
    assert_eq!(queued.len(), 1);
    let body: Vec<String> = queued[0]
        .1
        .get_commands()
        .iter()
        .map(|c| match c {
            Command::Raw(s) => s.clone(),
            _ => String::new(),
        })
        .collect();
    assert_eq!(
        body,
        vec![
            "execute if a run return run say one".to_string(),
            "execute if b run return run say two".to_string(),
            "say three".to_string(),
        ]
    );
}

#[test]
fn modern_single_clause_multi_line_then_is_hoisted() {
    let options = CompileOptions::default();
    let mut state = FunctionCompilerState::new("foo", "ns", ExtendableQueue::new());
    let ex = Execute::If(
        Condition::atom("a"),
        Box::new(Execute::Runs(vec![Command::raw("say 1"), Command::raw("say 2")])),
        None,
    );
    let lines = run_compile(&ex, &options, &mut state);
    assert_eq!(lines, vec![format!("execute if a run function ns:{}", hoisted_name("foo", 0))]);
}

#[test]
fn variant_names() {
    let next = || Box::new(Execute::Runs(vec![]));
    assert_eq!(Execute::AsAt("x".to_string(), next()).variant_name(), "as_at");
    assert_eq!(Execute::Summon("x".to_string(), next()).variant_name(), "summon");
    assert_eq!(Execute::Runs(vec![]).variant_name(), "runs");
}

#[test]
fn options_builders() {
    let o = CompileOptions::default();
    assert_eq!(o.pack_format, LATEST_FORMAT);
    assert!(o.debug);
    let o2 = o.with_debug(false).with_pack_format(12);
    assert!(!o2.debug);
    assert_eq!(o2.pack_format, 12);
}

#[test]
fn modern_if_else_keeps_the_modifiers() {
    let options = CompileOptions::default();
    let mut state = FunctionCompilerState::new("foo", "ns", ExtendableQueue::new());
    let ex = Execute::As(
        "@a".to_string(),
        Box::new(Execute::If(
            Condition::atom("a"),
            Box::new(Execute::Run(Box::new(Command::raw("say 1")))),
            Some(Box::new(Execute::Run(Box::new(Command::raw("say 2"))))),
        )),
    );
    let lines = run_compile(&ex, &options, &mut state);
    assert_eq!(lines, vec![format!("execute as @a run function ns:{}", hoisted_name("foo", 0))]);
}

#[test]
fn inline_guard_takes_no_id() {
    for format in [10u8, 48u8] {
        let options = CompileOptions::default().with_pack_format(format);
        let mut state = FunctionCompilerState::new("foo", "ns", ExtendableQueue::new());
        let ex = Execute::If(Condition::atom("a"), Box::new(Execute::Run(Box::new(Command::raw("say 1")))), None);
        assert_eq!(run_compile(&ex, &options, &mut state), vec!["execute if a run say 1".to_string()]);
        let next = Command::Group(vec![Command::raw("say a"), Command::raw("say b")]);
        let call = next.compile(&options, &CompilerState::default(), &mut state);
        assert_eq!(call, vec![format!("function ns:{}", hoisted_name("foo", 0))]);
    }
}

#[test]
fn groups_count_execute_chains_and_nested_groups() {
    let options = CompileOptions::default();
    let chain = Command::Execute(Execute::As("@a".to_string(), Box::new(Execute::Run(Box::new(Command::raw("say x"))))));
    let mut state = FunctionCompilerState::new("foo", "ns", ExtendableQueue::new());
    let inline = Command::Group(vec![chain.clone(), Command::Comment("c".to_string())]);
    assert_eq!(
        inline.compile(&options, &CompilerState::default(), &mut state),
        vec!["execute as @a run say x".to_string(), "#c".to_string()]
    );
    assert!(state.take_functions().is_empty());

    let hoisted = Command::Group(vec![chain.clone(), Command::raw("say y")]);
    let lines = hoisted.compile(&options, &CompilerState::default(), &mut state);
    assert_eq!(lines, vec![format!("function ns:{}", hoisted_name("foo", 0))]);
    assert_eq!(state.take_functions().len(), 1);

    let nested = Command::Group(vec![Command::Group(vec![Command::raw("a"), Command::raw("b")])]);
    let lines = nested.compile(&options, &CompilerState::default(), &mut state);
    assert_eq!(lines, vec![format!("function ns:{}", hoisted_name("foo", 1))]);
    assert_eq!(state.take_functions().len(), 1);
}
