use auric_core::providers::AgentProvider;
use auric_core::providers::ArgumentConfig;
use auric_core::providers::CrushProvider;
use auric_core::providers::DynamicProvider;
use auric_core::providers::ModelOption;
use auric_core::providers::PermissionModeOption;
use auric_core::providers::Provider;
use auric_core::providers::ProviderConfig;
use auric_core::providers::ProviderConfigInfo;
use auric_core::providers::ProviderRegistry;
use auric_core::providers::PromptTemplate;
use auric_core::providers::VersionCheck;
use auric_core::providers::resolve_permission_mode_key;
use auric_core::providers::shell_escape_double_quoted;

fn s(t: &str) -> String {
    t.to_string()
}

fn version_check(cmd: &str) -> VersionCheck {
    VersionCheck {
        command: s(cmd),
        args: vec![s("--version")],
    }
}

fn empty_info(default_model: &str) -> ProviderConfigInfo {
    ProviderConfigInfo {
        models: Vec::<ModelOption>::new(),
        permission_modes: Vec::<PermissionModeOption>::new(),
        default_model: s(default_model),
        default_permission_mode: s("acceptEdits"),
    }
}

fn get_bolt_config() -> ProviderConfig {
    ProviderConfig {
        id: s("bolt"),
        name: s("Bolt CLI"),
        executable: s("bolt"),
        arguments: vec![
            ArgumentConfig::Model {
                flag: s("--model"),
                ignore_if_auto: true,
            },
            ArgumentConfig::Headless {
                flag: s("-p"),
                interactive_flag: None,
            },
            ArgumentConfig::Task { quote: true },
            ArgumentConfig::Permission {
                map: vec![
                    (s("bypassPermissions"), s("--permission-mode bypassPermissions")),
                    (s("acceptEdits"), s("--permission-mode acceptEdits")),
                    (s("plan"), s("--permission-mode plan")),
                ],
                fallback: Some(s("")),
            },
        ],
        info: empty_info("sonnet"),
        version_check: version_check("bolt"),
        prompt_template: s("bolt --model sonnet -p \""),
    }
}

fn get_gemini_config() -> ProviderConfig {
    ProviderConfig {
        id: s("gemini"),
        name: s("Gemini CLI"),
        executable: s("gemini"),
        arguments: vec![
            ArgumentConfig::Headless {
                flag: s("-p"),
                interactive_flag: Some(s("-i")),
            },
            ArgumentConfig::Task { quote: true },
            ArgumentConfig::Model {
                flag: s("--model"),
                ignore_if_auto: true,
            },
            ArgumentConfig::Permission {
                map: vec![(s("bypassPermissions"), s("")), (s("default"), s("--sandbox"))],
                fallback: Some(s("--sandbox")),
            },
        ],
        info: empty_info("auto"),
        version_check: version_check("gemini"),
        prompt_template: s("gemini --model gemini-2.5-flash -p \""),
    }
}

#[test]
fn test_dynamic_bolt_interactive_auto() {
    let provider = DynamicProvider::new(get_bolt_config());
    let cmd = provider.build_spawn_command("auto", "task", None, false, false, false);
    assert_eq!(cmd.command, "bolt \"task\"");
}

#[test]
fn test_dynamic_bolt_headless_model() {
    let provider = DynamicProvider::new(get_bolt_config());
    let cmd = provider.build_spawn_command("opus", "task", None, false, false, true);
    assert_eq!(cmd.command, "bolt --model opus -p \"task\"");
}

#[test]
fn test_dynamic_bolt_permission() {
    let provider = DynamicProvider::new(get_bolt_config());
    let cmd = provider.build_spawn_command("sonnet", "task", Some("plan"), false, false, false);
    assert_eq!(cmd.command, "bolt --model sonnet \"task\" --permission-mode plan");
}

#[test]
fn test_dynamic_gemini_interactive_auto() {
    let provider = DynamicProvider::new(get_gemini_config());
    let cmd = provider.build_spawn_command("auto", "task", None, false, false, false);
    assert_eq!(cmd.command, "gemini -i \"task\" --sandbox");
}

#[test]
fn test_dynamic_gemini_headless_model() {
    let provider = DynamicProvider::new(get_gemini_config());
    let cmd = provider.build_spawn_command("gemini-2.5-pro", "task", None, false, false, true);
    assert_eq!(cmd.command, "gemini -p \"task\" --model gemini-2.5-pro --sandbox");
}

#[test]
fn test_crush_permission_bypass_maps_to_yolo() {
    let provider = CrushProvider;
    let cmd = provider.build_spawn_command(
        "auto",
        "do it",
        Some("bypassPermissions"),
        false,
        false,
        false,
    );
    assert!(
        cmd.command.contains("--yolo"),
        "Expected --yolo in command: {}",
        cmd.command
    );
}

#[test]
fn test_crush_permission_yolo_maps_to_yolo() {
    let provider = CrushProvider;
    let cmd = provider.build_spawn_command("auto", "do it", Some("yolo"), false, false, false);
    assert!(
        cmd.command.contains("--yolo"),
        "Expected --yolo in command: {}",
        cmd.command
    );
}

#[test]
fn test_shell_escape_backticks_and_parens() {
    let provider = DynamicProvider::new(get_bolt_config());
    let task = "Call `list_epics()` then `create_epic({ name })` ok";
    let cmd = provider.build_spawn_command("sonnet", task, None, false, false, true);
    assert_eq!(
        cmd.command,
        "bolt --model sonnet -p \"Call \\`list_epics()\\` then \\`create_epic({ name })\\` ok\""
    );
}

#[test]
fn test_shell_escape_backslash_and_dollar() {
    let provider = DynamicProvider::new(get_bolt_config());
    let task = r#"path C:\Users and $HOME with "quotes""#;
    let cmd = provider.build_spawn_command("auto", task, None, false, false, true);
    assert_eq!(
        cmd.command,
        r#"bolt -p "path C:\\Users and \$HOME with \"quotes\"""#
    );
}

#[test]
fn test_shell_escape_exclamation() {
    let provider = CrushProvider;
    let cmd = provider.build_spawn_command("auto", "fix this!", None, false, false, false);
    assert_eq!(cmd.command, r#"crush "fix this\!""#);
}

#[test]
fn test_dynamic_gemini_bypass() {
    let provider = DynamicProvider::new(get_gemini_config());
    let cmd = provider.build_spawn_command("m", "task", Some("bypassPermissions"), false, false, false);
    assert_eq!(cmd.command, "gemini -i \"task\" --model m");
}

#[test]
fn test_declarative_scenario_auto_headless() {
    // A declarative provider whose model flag is skipped for the sentinel
    // value and whose permission fallback is empty.
    let config = ProviderConfig {
        id: s("bolt"),
        name: s("Bolt CLI"),
        executable: s("bolt"),
        arguments: vec![
            ArgumentConfig::Model {
                flag: s("--model"),
                ignore_if_auto: true,
            },
            ArgumentConfig::Headless {
                flag: s("-p"),
                interactive_flag: None,
            },
            ArgumentConfig::Task { quote: true },
            ArgumentConfig::Permission {
                map: vec![(s("plan"), s("--permission-mode plan"))],
                fallback: Some(s("")),
            },
        ],
        info: empty_info("sonnet"),
        version_check: version_check("bolt"),
        prompt_template: s("bolt -p \""),
    };
    let provider = DynamicProvider::new(config);
    let cmd = provider.build_spawn_command("auto", "hi", None, false, false, true);
    assert_eq!(cmd.command, "bolt -p \"hi\"");
}

#[test]
fn test_declarative_scenario_model_and_permission() {
    let config = ProviderConfig {
        id: s("bolt"),
        name: s("Bolt CLI"),
        executable: s("bolt"),
        arguments: vec![
            ArgumentConfig::Model {
                flag: s("--model"),
                ignore_if_auto: true,
            },
            ArgumentConfig::Headless {
                flag: s("-p"),
                interactive_flag: None,
            },
            ArgumentConfig::Task { quote: true },
            ArgumentConfig::Permission {
                map: vec![(s("plan"), s("--permission-mode plan"))],
                fallback: Some(s("")),
            },
        ],
        info: empty_info("sonnet"),
        version_check: version_check("bolt"),
        prompt_template: s("bolt -p \""),
    };
    let provider = DynamicProvider::new(config);
    let cmd = provider.build_spawn_command("opus", "hi", Some("plan"), false, false, true);
    assert_eq!(cmd.command, "bolt --model opus -p \"hi\" --permission-mode plan");
}

#[test]
fn test_crush_default_permission_has_no_yolo() {
    let provider = CrushProvider;
    let cmd = provider.build_spawn_command("auto", "do it", Some("default"), false, false, false);
    assert!(!cmd.command.contains("--yolo"));
}

#[test]
fn test_builder_is_deterministic() {
    let p1 = DynamicProvider::new(get_bolt_config());
    let p2 = DynamicProvider::new(get_bolt_config());
    let a = p1.build_spawn_command("opus", "do $tuff!", Some("plan"), true, false, true);
    let b = p2.build_spawn_command("opus", "do $tuff!", Some("plan"), true, false, true);
    assert_eq!(a.command, b.command);
    assert!(a.env_vars.is_empty());
}

#[test]
fn test_legacy_permission_mode_mapping() {
    assert_eq!(resolve_permission_mode_key(None, true, true), "bypassPermissions");
    assert_eq!(resolve_permission_mode_key(None, false, true), "acceptEdits");
    assert_eq!(resolve_permission_mode_key(None, false, false), "default");
    assert_eq!(resolve_permission_mode_key(Some("plan"), true, true), "plan");
}

#[test]
fn test_shell_escape_function_escapes_each_special() {
    assert_eq!(shell_escape_double_quoted(r#"a\b"c`d$e!f"#), r#"a\\b\"c\`d\$e\!f"#);
    assert_eq!(shell_escape_double_quoted("plain"), "plain");
    assert_eq!(shell_escape_double_quoted(""), "");
}

#[test]
fn test_registry_prefers_bolt_as_default() {
    let registry = ProviderRegistry::new(vec![get_gemini_config(), get_bolt_config()]);
    assert_eq!(registry.default_id, "bolt");
    assert!(registry.get("bolt").is_some());
    assert!(registry.get("gemini").is_some());
    assert!(registry.get("crush").is_some());
    assert!(registry.get("unknown").is_none());
}

#[test]
fn test_registry_falls_back_to_first_discovered_provider() {
    let registry = ProviderRegistry::new(vec![get_gemini_config()]);
    assert_eq!(registry.default_id, "gemini");
}

#[test]
fn test_registry_without_configs_defaults_to_crush() {
    let registry = ProviderRegistry::new(Vec::new());
    assert_eq!(registry.default_id, "crush");
    let p = registry.default_provider();
    let info = p.info();
    assert_eq!(info.id, "crush");
    assert_eq!(info.name, "Crush");
    assert_eq!(info.models.len(), 2);
    assert_eq!(info.default_model, "auto");
}

#[test]
fn test_registry_list_providers_sorts_default_first() {
    let registry = ProviderRegistry::new(vec![get_gemini_config(), get_bolt_config()]);
    let infos = registry.list_providers();
    assert_eq!(infos.len(), 3);
    assert_eq!(infos[0].id, "bolt");
    assert_eq!(infos[1].id, "crush");
    assert_eq!(infos[2].id, "gemini");
}

#[test]
fn test_registry_replaces_provider_with_same_id() {
    let mut other = get_bolt_config();
    other.name = s("Bolt CLI v2");
    let registry = ProviderRegistry::new(vec![get_bolt_config(), other]);
    let infos = registry.list_providers();
    assert_eq!(infos.len(), 2);
    assert_eq!(infos[0].id, "bolt");
    assert_eq!(infos[0].name, "Bolt CLI v2");
}

#[test]
fn test_provider_enum_dispatch_matches_concrete_builders() {
    let d = Provider::Dynamic(DynamicProvider::new(get_bolt_config()));
    let cmd = d.build_spawn_command("auto", "task", None, false, false, false);
    assert_eq!(cmd.command, "bolt \"task\"");
    let c = Provider::Crush(CrushProvider);
    let cmd = c.build_spawn_command("auto", "task", None, false, false, false);
    assert_eq!(cmd.command, "crush \"task\"");
    let t: PromptTemplate = c.prompt_template();
    assert_eq!(t.template, "crush \"");
    let vc = c.version_check();
    assert_eq!(vc.command, "crush");
    assert_eq!(vc.args, vec![s("--version")]);
}

#[test]
fn test_crush_legacy_flags_resolve_when_no_mode_given() {
    let provider = CrushProvider;
    let cmd = provider.build_spawn_command("auto", "do it", None, true, false, false);
    assert!(
        cmd.command.contains("--yolo"),
        "dangerously-ignore-permissions must map to --yolo: {}",
        cmd.command
    );
    let cmd = provider.build_spawn_command("auto", "do it", None, false, true, false);
    assert!(!cmd.command.contains("--yolo"));
    let cmd = provider.build_spawn_command("auto", "do it", Some("plan"), true, false, false);
    assert!(!cmd.command.contains("--yolo"), "an explicit mode wins over the legacy flags");
}
