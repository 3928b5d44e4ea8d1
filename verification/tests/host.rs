use boncarobot::dispatch::{
    collect_outcomes, dispatch, is_valid_command, ChatEvent, Invocation, InvocationOutcome,
};
use boncarobot::manager::{LoadError, LoadedPlugin, PluginManager, ReleaseStep};
use boncarobot::optparse::ParsedOpts;
use boncarobot::plugin_api::{Command, Context, Plugin, PluginMeta};

fn meta_with(names_helps: &[(&str, &str)]) -> PluginMeta {
    let mut meta = PluginMeta::new();
    for (name, help) in names_helps {
        meta.add_simple_command(name.to_string(), help.to_string());
    }
    meta
}

fn event(message: &str) -> ChatEvent {
    ChatEvent {
        channel: "#chan".to_string(),
        sender: "alice".to_string(),
        message: message.to_string(),
    }
}

/// A registry with the `ud` and `w` plugins resident.
fn two_plugin_manager() -> PluginManager {
    let mut mgr = PluginManager::new();
    let ud = LoadedPlugin {
        module: 1,
        instance: 11,
        meta: meta_with(&[("ud", "Urban dictionary lookup")]),
    };
    mgr.load_plugin("ud", Ok(ud)).unwrap();
    let w = LoadedPlugin {
        module: 2,
        instance: 22,
        meta: meta_with(&[("w", "Spam short description of a wiki article")]),
    };
    mgr.load_plugin("w", Ok(w)).unwrap();
    mgr
}

#[test]
fn load_makes_resident_and_refuses_replacement() {
    let mut mgr = two_plugin_manager();
    assert!(mgr.is_resident("ud"));
    assert!(mgr.is_resident("w"));
    assert!(!mgr.is_resident("crypto"));
    let again = LoadedPlugin { module: 3, instance: 33, meta: PluginMeta::new() };
    assert_eq!(mgr.load_plugin("ud", Ok(again)), Err(LoadError::AlreadyResident));
    assert!(mgr.is_resident("ud"));
}

#[test]
fn failed_load_leaves_no_entry() {
    let mut mgr = PluginManager::new();
    let r = mgr.load_plugin("ghost", Err(LoadError::ModuleNotFound));
    assert_eq!(r, Err(LoadError::ModuleNotFound));
    assert!(!mgr.is_resident("ghost"));
    assert_eq!(mgr.count(), 0);
}

#[test]
fn unload_releases_in_order() {
    let mut mgr = two_plugin_manager();
    let mut log: Vec<ReleaseStep> = Vec::new();
    assert!(mgr.unload_plugin("ud", &mut log));
    assert_eq!(
        log,
        vec![
            ReleaseStep::Instance(11),
            ReleaseStep::CommandTable(11),
            ReleaseStep::Module(1),
        ]
    );
    assert!(!mgr.is_resident("ud"));
    assert!(mgr.is_resident("w"));
    assert!(!mgr.unload_plugin("ud", &mut log));
    assert_eq!(log.len(), 3);
}

#[test]
fn reload_replaces_with_fresh_instance() {
    let mut mgr = two_plugin_manager();
    let mut log: Vec<ReleaseStep> = Vec::new();
    let fresh = LoadedPlugin {
        module: 9,
        instance: 99,
        meta: meta_with(&[("ud", "fresh help")]),
    };
    mgr.reload_plugin("ud", Ok(fresh), &mut log).unwrap();
    // the old container was torn down, in order
    assert_eq!(
        log,
        vec![
            ReleaseStep::Instance(11),
            ReleaseStep::CommandTable(11),
            ReleaseStep::Module(1),
        ]
    );
    // and the resident container is the freshly constructed one
    let mut seen = false;
    for i in 0..mgr.count() {
        let entry = mgr.entry(i);
        if entry.0 == "ud" {
            seen = true;
            assert_eq!(entry.1.plugin, 99);
            assert_eq!(entry.1.lib, 9);
            assert_eq!(entry.1.meta.commands[0].help, "fresh help");
        }
    }
    assert!(seen);
}

#[test]
fn failed_reload_leaves_plugin_absent() {
    let mut mgr = two_plugin_manager();
    let mut log: Vec<ReleaseStep> = Vec::new();
    let r = mgr.reload_plugin("ud", Err(LoadError::SymbolNotFound), &mut log);
    assert_eq!(r, Err(LoadError::SymbolNotFound));
    assert!(!mgr.is_resident("ud"));
    assert!(mgr.is_resident("w"));
    assert_eq!(log.len(), 3);
}

#[test]
fn command_prefix_boundary() {
    assert!(!is_valid_command("!5 apples", "!"));
    assert!(is_valid_command("!help", "!"));
    assert!(!is_valid_command("!", "!"));
    assert!(!is_valid_command("! cmd", "!"));
    assert!(!is_valid_command("hello", "!"));
}

#[test]
fn digit_after_prefix_is_not_dispatched_as_command() {
    let mgr = two_plugin_manager();
    let plan = dispatch(&mgr, "!", &event("!5 apples"));
    assert!(plan.replies.is_empty());
    // only the two broadcasts, no command invocation
    assert_eq!(plan.invocations.len(), 2);
    for inv in &plan.invocations {
        assert!(matches!(inv, Invocation::Broadcast { .. }));
    }
}

#[test]
fn help_lists_all_commands() {
    let mgr = two_plugin_manager();
    let plan = dispatch(&mgr, "!", &event("!help"));
    assert!(plan.invocations.is_empty());
    assert_eq!(
        plan.replies,
        vec![
            "alice: The following commands are available (!help <command>): ud, w, "
                .to_string(),
        ]
    );
}

#[test]
fn help_with_argument_gives_that_help_text() {
    let mgr = two_plugin_manager();
    let plan = dispatch(&mgr, "!", &event("!help ud"));
    assert_eq!(plan.replies, vec!["alice: Urban dictionary lookup".to_string()]);
    assert!(plan.invocations.is_empty());
}

#[test]
fn matched_command_is_invoked_with_arguments() {
    let mgr = two_plugin_manager();
    let plan = dispatch(&mgr, "!", &event("!ud hello world"));
    assert!(plan.replies.is_empty());
    assert_eq!(plan.invocations.len(), 3);
    match &plan.invocations[0] {
        Invocation::Command { plugin, instance, command, args } => {
            assert_eq!(plugin, "ud");
            assert_eq!(*instance, 11);
            assert_eq!(command, "ud");
            assert_eq!(args.free, vec!["hello world".to_string()]);
        },
        other => panic!("expected a command invocation, got {:?}", other),
    }
    assert!(matches!(&plan.invocations[1], Invocation::Broadcast { plugin, .. } if plugin == "ud"));
    assert!(matches!(&plan.invocations[2], Invocation::Broadcast { plugin, .. } if plugin == "w"));
}

#[test]
fn unknown_command_yields_one_reply() {
    let mgr = two_plugin_manager();
    let plan = dispatch(&mgr, "!", &event("!frobnicate"));
    assert_eq!(plan.replies.len(), 1);
    assert!(plan.replies[0].starts_with("Unknown command: frobnicate. Did you mean '"));
    // broadcasts still go out; no command invocation
    assert_eq!(plan.invocations.len(), 2);
    for inv in &plan.invocations {
        assert!(matches!(inv, Invocation::Broadcast { .. }));
    }
}

#[test]
fn unknown_command_suggests_closest_name() {
    let mut mgr = PluginManager::new();
    let p = LoadedPlugin {
        module: 1,
        instance: 1,
        meta: meta_with(&[("frobnicatx", "near miss"), ("zz", "far away")]),
    };
    mgr.load_plugin("p", Ok(p)).unwrap();
    let plan = dispatch(&mgr, "!", &event("!frobnicate"));
    assert_eq!(
        plan.replies,
        vec!["Unknown command: frobnicate. Did you mean 'frobnicatx'?".to_string()]
    );
}

#[test]
fn faulted_invocation_does_not_silence_others() {
    let outcomes = vec![
        InvocationOutcome {
            plugin: "crash".to_string(),
            faulted: true,
            replies: vec!["never sent".to_string()],
        },
        InvocationOutcome {
            plugin: "steady".to_string(),
            faulted: false,
            replies: vec!["alice: result".to_string()],
        },
    ];
    let msgs = collect_outcomes(&outcomes);
    assert_eq!(
        msgs,
        vec!["[Plugin 'crash' failed]".to_string(), "alice: result".to_string()]
    );
}

struct EchoPlugin {
    greetings: usize,
}

impl Plugin for EchoPlugin {
    fn new() -> Self {
        EchoPlugin { greetings: 0 }
    }

    fn register(&self, meta: &mut PluginMeta) {
        meta.add_command(Command::new("echo".to_string(), "Echo the text back".to_string()));
    }

    fn channel_msg(&mut self, msg: &str, ctx: &mut Context) {
        self.greetings += 1;
        let text = format!("{} said {}", ctx.sender, msg);
        ctx.send_channel(&text);
    }

    fn on_command(&mut self, name: &str, args: ParsedOpts, ctx: &mut Context) {
        if name == "echo" {
            ctx.send_channel(&args.free.join(" "));
        }
    }
}

#[test]
fn plugin_trait_register_and_handle() {
    let plugin = EchoPlugin::new();
    let mut meta = PluginMeta::new();
    plugin.register(&mut meta);
    assert_eq!(meta.commands.len(), 1);
    assert_eq!(meta.commands[0].name, "echo");

    let mut plugin = plugin;
    let mut ctx = Context::new("#chan".to_string(), "alice".to_string());
    plugin.channel_msg("hi", &mut ctx);
    assert_eq!(ctx.outbox, vec!["alice said hi".to_string()]);
    assert_eq!(plugin.greetings, 1);

    let mut ctx2 = Context::new("#chan".to_string(), "alice".to_string());
    let args = ParsedOpts { opts: vec![], free: vec!["hello".to_string()] };
    plugin.on_command("echo", args, &mut ctx2);
    assert_eq!(ctx2.outbox, vec!["hello".to_string()]);
}

#[test]
fn send_channel_chunks_and_trims() {
    let mut ctx = Context::new("#chan".to_string(), "bob".to_string());
    let long = "x".repeat(401);
    ctx.send_channel(&long);
    assert_eq!(ctx.outbox.len(), 2);
    assert_eq!(ctx.outbox[0], "x".repeat(400));
    assert_eq!(ctx.outbox[1], "x");

    let mut blank = Context::new("#chan".to_string(), "bob".to_string());
    blank.send_channel("   ");
    assert!(blank.outbox.is_empty());
    blank.send_channel("  padded  ");
    assert_eq!(blank.outbox, vec!["padded".to_string()]);
}

#[test]
fn send_channel_counts_bytes_and_trims_all_whitespace() {
    // 201 two-byte characters: 402 bytes, so the 400-byte budget takes 200
    let mut ctx = Context::new("#chan".to_string(), "bob".to_string());
    let long = "é".repeat(201);
    ctx.send_channel(&long);
    assert_eq!(ctx.outbox.len(), 2);
    assert_eq!(ctx.outbox[0], "é".repeat(200));
    assert_eq!(ctx.outbox[1], "é");

    let mut tabs = Context::new("#chan".to_string(), "bob".to_string());
    tabs.send_channel("\t\t");
    assert!(tabs.outbox.is_empty());
    tabs.send_channel("\tpadded\r\n");
    assert_eq!(tabs.outbox, vec!["padded".to_string()]);
}

#[test]
fn construction_failure_is_reported() {
    let mut mgr = PluginManager::new();
    let r = mgr.load_plugin("broken", Err(LoadError::ConstructionFailed));
    assert_eq!(r, Err(LoadError::ConstructionFailed));
    assert!(!mgr.is_resident("broken"));
}

fn manager_with_option_taking_command() -> PluginManager {
    let mut mgr = PluginManager::new();
    let cmd = Command::new("ud".to_string(), "Urban dictionary lookup".to_string()).opt(
        'n',
        "number".to_string(),
        "Get entry number n".to_string(),
        true,
    );
    let mut meta = PluginMeta::new();
    meta.add_command(cmd);
    let lp = LoadedPlugin { module: 5, instance: 55, meta };
    mgr.load_plugin("ud", Ok(lp)).unwrap();
    mgr
}

#[test]
fn command_arguments_parse_against_declared_options() {
    let mgr = manager_with_option_taking_command();
    let plan = dispatch(&mgr, "!", &event("!ud -n 3 word"));
    assert!(plan.replies.is_empty());
    match &plan.invocations[0] {
        Invocation::Command { command, args, .. } => {
            assert_eq!(command, "ud");
            assert_eq!(args.opts.len(), 1);
            assert_eq!(args.opts[0].name, "number");
            assert_eq!(args.opts[0].args, vec!["3".to_string()]);
            assert_eq!(args.free, vec!["word".to_string()]);
        },
        other => panic!("expected a command invocation, got {:?}", other),
    }
}

#[test]
fn unparsable_arguments_yield_a_reply_instead_of_an_invocation() {
    let mgr = manager_with_option_taking_command();
    let plan = dispatch(&mgr, "!", &event("!ud -z"));
    assert_eq!(
        plan.replies,
        vec!["alice: could not parse arguments for 'ud'".to_string()]
    );
    // the broadcast still goes out; the command handler is not invoked
    assert_eq!(plan.invocations.len(), 1);
    assert!(matches!(&plan.invocations[0], Invocation::Broadcast { .. }));
}
