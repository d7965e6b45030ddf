//! Providers translate an abstract agent request (model, task, permission
//! mode, flags) into a concrete shell command line. Two variants exist: a
//! declarative provider driven by an ordered list of argument rules, and a
//! hard-coded fallback provider. A registry holds all providers, looks them
//! up by id, and designates a default.
use vstd::prelude::*;

use vstd::multiset::Multiset;

use crate::strutil::push_char;
use crate::strutil::str_eq;

verus! {

// ── Descriptive types ───────────────────────────────────────────────

pub struct ModelOption {
    pub value: String,
    pub label: String,
}

pub ghost struct ModelOptionV {
    pub value: Seq<char>,
    pub label: Seq<char>,
}

impl View for ModelOption {
    type V = ModelOptionV;

    open spec fn view(&self) -> ModelOptionV {
        ModelOptionV { value: self.value@, label: self.label@ }
    }
}

pub struct PermissionModeOption {
    pub value: String,
    pub label: String,
    pub description: String,
}

pub ghost struct PermissionModeOptionV {
    pub value: Seq<char>,
    pub label: Seq<char>,
    pub description: Seq<char>,
}

impl View for PermissionModeOption {
    type V = PermissionModeOptionV;

    open spec fn view(&self) -> PermissionModeOptionV {
        PermissionModeOptionV {
            value: self.value@,
            label: self.label@,
            description: self.description@,
        }
    }
}

pub struct ProviderInfo {
    pub id: String,
    pub name: String,
    pub models: Vec<ModelOption>,
    pub permission_modes: Vec<PermissionModeOption>,
    pub default_model: String,
    pub default_permission_mode: String,
}

pub ghost struct ProviderInfoV {
    pub id: Seq<char>,
    pub name: Seq<char>,
    pub models: Seq<ModelOptionV>,
    pub permission_modes: Seq<PermissionModeOptionV>,
    pub default_model: Seq<char>,
    pub default_permission_mode: Seq<char>,
}

impl View for ProviderInfo {
    type V = ProviderInfoV;

    open spec fn view(&self) -> ProviderInfoV {
        ProviderInfoV {
            id: self.id@,
            name: self.name@,
            models: self.models@.map_values(|m: ModelOption| m@),
            permission_modes: self.permission_modes@.map_values(|m: PermissionModeOption| m@),
            default_model: self.default_model@,
            default_permission_mode: self.default_permission_mode@,
        }
    }
}

/// The builder's output: one command-line string plus environment overrides.
pub struct SpawnCommand {
    pub command: String,
    pub env_vars: Vec<(String, String)>,
}

pub struct VersionCheck {
    pub command: String,
    pub args: Vec<String>,
}

pub struct PromptTemplate {
    pub template: String,
}

// ── Shell escaping ──────────────────────────────────────────────────

/// The characters that are special inside double quotes in zsh/bash:
/// backslash, double quote, backtick, dollar, and exclamation mark
/// (history expansion).
pub open spec fn is_dq_special(c: char) -> bool {
    c == '\\' || c == '"' || c == '`' || c == '$' || c == '!'
}

pub open spec fn escape_char(c: char) -> Seq<char> {
    if is_dq_special(c) {
        seq!['\\', c]
    } else {
        seq![c]
    }
}

/// The escaped form of a task string: every special character is preceded
/// by a backslash.
pub open spec fn escape_seq(s: Seq<char>) -> Seq<char>
    decreases s.len(),
{
    if s.len() == 0 {
        Seq::empty()
    } else {
        escape_char(s[0]) + escape_seq(s.drop_first())
    }
}

proof fn lemma_escape_seq_push(s: Seq<char>, c: char)
    ensures
        escape_seq(s.push(c)) == escape_seq(s) + escape_char(c),
    decreases s.len(),
{
    if s.len() == 0 {
        assert(s.push(c).len() == 1);
        assert(s.push(c)[0] == c);
        assert(s.push(c).drop_first() =~= Seq::<char>::empty());
        assert(escape_seq(s.push(c)) == escape_char(c) + escape_seq(Seq::<char>::empty()));
        assert(escape_char(c) + Seq::<char>::empty() =~= escape_char(c));
        assert(escape_seq(s) + escape_char(c) =~= escape_char(c));
    } else {
        assert(s.push(c).drop_first() =~= s.drop_first().push(c));
        lemma_escape_seq_push(s.drop_first(), c);
        assert(s.push(c)[0] == s[0]);
        assert(escape_seq(s.push(c)) == escape_char(s[0]) + (escape_seq(s.drop_first())
            + escape_char(c)));
        assert(escape_char(s[0]) + (escape_seq(s.drop_first()) + escape_char(c)) =~= (escape_char(
            s[0],
        ) + escape_seq(s.drop_first())) + escape_char(c));
    }
}

/// Escape a string for use inside double quotes in zsh/bash.
pub fn shell_escape_double_quoted(s: &str) -> (r: String)
    ensures
        r@ == escape_seq(s@),
{
    let len = s.unicode_len();
    let mut r = String::new();
    let mut i: usize = 0;
    while i < len
        invariant
            i <= len,
            len == s@.len(),
            r@ == escape_seq(s@.take(i as int)),
        decreases len - i,
    {
        let c = s.get_char(i);
        if c == '\\' || c == '"' || c == '`' || c == '$' || c == '!' {
            push_char(&mut r, '\\');
        }
        push_char(&mut r, c);
        proof {
            assert(s@.take(i as int).push(c) =~= s@.take(i + 1 as int));
            lemma_escape_seq_push(s@.take(i as int), c);
        }
        i += 1;
    }
    proof {
        assert(s@.take(len as int) =~= s@);
    }
    r
}

/// How a zsh/bash-style shell reads text standing inside double quotes: a
/// backslash before a special character yields that character; any other
/// character stands for itself.
pub open spec fn dq_unescape(s: Seq<char>) -> Seq<char>
    decreases s.len(),
{
    if s.len() == 0 {
        Seq::empty()
    } else if s[0] == '\\' && s.len() >= 2 && is_dq_special(s[1]) {
        seq![s[1]] + dq_unescape(s.skip(2))
    } else {
        seq![s[0]] + dq_unescape(s.skip(1))
    }
}

/// Escaping round-trips: a task string escaped by
/// [`shell_escape_double_quoted`] and then read back by a shell inside
/// double quotes reproduces the original text exactly.
pub proof fn lemma_shell_escape_round_trip(s: Seq<char>)
    ensures
        dq_unescape(escape_seq(s)) == s,
    decreases s.len(),
{
    if s.len() == 0 {
    } else {
        let e = escape_seq(s);
        lemma_shell_escape_round_trip(s.drop_first());
        if is_dq_special(s[0]) {
            assert(e == seq!['\\', s[0]] + escape_seq(s.drop_first()));
            assert(e[0] == '\\' && e.len() >= 2 && e[1] == s[0]);
            assert(e.skip(2) =~= escape_seq(s.drop_first()));
            assert(dq_unescape(e) == seq![s[0]] + s.drop_first());
            assert(seq![s[0]] + s.drop_first() =~= s);
        } else {
            assert(e == seq![s[0]] + escape_seq(s.drop_first()));
            assert(e[0] == s[0]);
            assert(!(e[0] == '\\' && e.len() >= 2 && is_dq_special(e[1])));
            assert(e.skip(1) =~= escape_seq(s.drop_first()));
            assert(dq_unescape(e) == seq![s[0]] + s.drop_first());
            assert(seq![s[0]] + s.drop_first() =~= s);
        }
    }
}

// ── Permission-mode resolution ──────────────────────────────────────

/// The mode key implied by the legacy boolean flags when no explicit
/// permission mode is supplied.
pub open spec fn legacy_mode_key(dangerously_ignore_permissions: bool, auto_accept_edits: bool) -> Seq<
    char,
> {
    if dangerously_ignore_permissions {
        "bypassPermissions"@
    } else if auto_accept_edits {
        "acceptEdits"@
    } else {
        "default"@
    }
}

pub open spec fn mode_key_spec(
    permission_mode: Option<&str>,
    dangerously_ignore_permissions: bool,
    auto_accept_edits: bool,
) -> Seq<char> {
    match permission_mode {
        Some(m) => m@,
        None => legacy_mode_key(dangerously_ignore_permissions, auto_accept_edits),
    }
}

/// Resolves the permission-mode key: an explicit mode wins; otherwise the
/// legacy three-flag mapping applies.
pub fn resolve_permission_mode_key(
    permission_mode: Option<&str>,
    dangerously_ignore_permissions: bool,
    auto_accept_edits: bool,
) -> (r: String)
    ensures
        r@ == mode_key_spec(permission_mode, dangerously_ignore_permissions, auto_accept_edits),
{
    match permission_mode {
        Some(m) => String::from_str(m),
        None => {
            if dangerously_ignore_permissions {
                String::from_str("bypassPermissions")
            } else if auto_accept_edits {
                String::from_str("acceptEdits")
            } else {
                String::from_str("default")
            }
        },
    }
}

// ── Association-list lookup ─────────────────────────────────────────

/// First value bound to `key` in an association list, if any.
pub open spec fn assoc_lookup(map: Seq<(String, String)>, key: Seq<char>) -> Option<Seq<char>>
    decreases map.len(),
{
    if map.len() == 0 {
        None
    } else if map[0].0@ == key {
        Some(map[0].1@)
    } else {
        assoc_lookup(map.drop_first(), key)
    }
}

proof fn lemma_assoc_lookup_at(map: Seq<(String, String)>, key: Seq<char>, i: int)
    requires
        0 <= i < map.len(),
        forall|j: int| 0 <= j < i ==> map[j].0@ != key,
        map[i].0@ == key,
    ensures
        assoc_lookup(map, key) == Some(map[i].1@),
    decreases map.len(),
{
    if i == 0 {
    } else {
        assert(map[0].0@ != key);
        assert(forall|j: int| 0 <= j < i - 1 ==> map.drop_first()[j] == map[j + 1]);
        assert(map.drop_first()[i - 1] == map[i]);
        lemma_assoc_lookup_at(map.drop_first(), key, i - 1);
    }
}

proof fn lemma_assoc_lookup_none(map: Seq<(String, String)>, key: Seq<char>)
    requires
        forall|j: int| 0 <= j < map.len() ==> map[j].0@ != key,
    ensures
        assoc_lookup(map, key) is None,
    decreases map.len(),
{
    if map.len() == 0 {
    } else {
        assert(forall|j: int| 0 <= j < map.len() - 1 ==> map.drop_first()[j] == map[j + 1]);
        lemma_assoc_lookup_none(map.drop_first(), key);
    }
}

fn assoc_get(map: &Vec<(String, String)>, key: &str) -> (r: Option<String>)
    ensures
        match r {
            Some(v) => assoc_lookup(map@, key@) == Some(v@),
            None => assoc_lookup(map@, key@) is None,
        },
{
    let mut i: usize = 0;
    while i < map.len()
        invariant
            i <= map@.len(),
            forall|j: int| 0 <= j < i ==> map@[j].0@ != key@,
        decreases map@.len() - i,
    {
        if str_eq(map[i].0.as_str(), key) {
            proof {
                lemma_assoc_lookup_at(map@, key@, i as int);
            }
            return Some(map[i].1.clone());
        }
        i += 1;
    }
    proof {
        lemma_assoc_lookup_none(map@, key@);
    }
    None
}

// ── Joining command parts ───────────────────────────────────────────

/// The parts of a command line joined with single spaces.
pub open spec fn join_spaces(parts: Seq<Seq<char>>) -> Seq<char>
    decreases parts.len(),
{
    if parts.len() == 0 {
        Seq::empty()
    } else if parts.len() == 1 {
        parts[0]
    } else {
        parts[0] + seq![' '] + join_spaces(parts.drop_first())
    }
}

proof fn lemma_join_spaces_push(parts: Seq<Seq<char>>, x: Seq<char>)
    requires
        parts.len() >= 1,
    ensures
        join_spaces(parts.push(x)) == join_spaces(parts) + seq![' '] + x,
    decreases parts.len(),
{
    if parts.len() == 1 {
        assert(parts.push(x).len() == 2);
        assert(parts.push(x)[0] == parts[0]);
        assert(parts.push(x).drop_first() =~= seq![x]);
        assert(join_spaces(seq![x]) == x);
        assert(join_spaces(parts.push(x)) == parts[0] + seq![' '] + x);
    } else {
        assert(parts.push(x).drop_first() =~= parts.drop_first().push(x));
        lemma_join_spaces_push(parts.drop_first(), x);
        assert(join_spaces(parts.push(x)) == parts[0] + seq![' '] + (join_spaces(
            parts.drop_first(),
        ) + seq![' '] + x));
        assert(parts[0] + seq![' '] + (join_spaces(parts.drop_first()) + seq![' '] + x) =~= (
        parts[0] + seq![' '] + join_spaces(parts.drop_first())) + seq![' '] + x);
    }
}

/// The views of a list of owned command parts.
pub open spec fn part_views(parts: Seq<String>) -> Seq<Seq<char>> {
    parts.map_values(|p: String| p@)
}

pub(crate) fn join_parts(parts: &Vec<String>) -> (r: String)
    ensures
        r@ == join_spaces(part_views(parts@)),
{
    let mut r = String::new();
    if parts.len() == 0 {
        return r;
    }
    r.append(parts[0].as_str());
    let mut i: usize = 1;
    while i < parts.len()
        invariant
            1 <= i <= parts@.len(),
            r@ == join_spaces(part_views(parts@).take(i as int)),
        decreases parts@.len() - i,
    {
        push_char(&mut r, ' ');
        r.append(parts[i].as_str());
        proof {
            assert(part_views(parts@).take(i as int).push(parts@[i as int]@) =~= part_views(
                parts@,
            ).take(i + 1 as int));
            lemma_join_spaces_push(part_views(parts@).take(i as int), parts@[i as int]@);
        }
        i += 1;
    }
    proof {
        assert(part_views(parts@).take(parts@.len() as int) =~= part_views(parts@));
    }
    r
}

// ── Declarative provider configuration ──────────────────────────────

/// One argument-construction rule of a declarative provider. Rules are
/// applied in declared order; each contributes zero or more parts to the
/// command line.
pub enum ArgumentConfig {
    Literal { value: String },
    Model { flag: String, ignore_if_auto: bool },
    Task { quote: bool },
    Headless { flag: String, interactive_flag: Option<String> },
    Permission { map: Vec<(String, String)>, fallback: Option<String> },
}

pub struct ProviderConfigInfo {
    pub models: Vec<ModelOption>,
    pub permission_modes: Vec<PermissionModeOption>,
    pub default_model: String,
    pub default_permission_mode: String,
}

pub struct ProviderConfig {
    pub id: String,
    pub name: String,
    pub executable: String,
    pub arguments: Vec<ArgumentConfig>,
    pub info: ProviderConfigInfo,
    pub version_check: VersionCheck,
    pub prompt_template: String,
}

/// The command-line parts contributed by one rule.
pub open spec fn arg_parts(
    a: ArgumentConfig,
    model: Seq<char>,
    esc_task: Seq<char>,
    mode_key: Seq<char>,
    headless: bool,
) -> Seq<Seq<char>> {
    match a {
        ArgumentConfig::Literal { value } => seq![value@],
        ArgumentConfig::Model { flag, ignore_if_auto } => {
            if model == "auto"@ && ignore_if_auto {
                Seq::empty()
            } else if flag@.len() > 0 {
                seq![flag@, model]
            } else {
                seq![model]
            }
        },
        ArgumentConfig::Task { quote } => {
            if quote {
                seq![seq!['"'] + esc_task + seq!['"']]
            } else {
                seq![esc_task]
            }
        },
        ArgumentConfig::Headless { flag, interactive_flag } => {
            if headless {
                seq![flag@]
            } else {
                match interactive_flag {
                    Some(f) => seq![f@],
                    None => Seq::empty(),
                }
            }
        },
        ArgumentConfig::Permission { map, fallback } => {
            let v = match assoc_lookup(map@, mode_key) {
                Some(v) => v,
                None => match fallback {
                    Some(f) => f@,
                    None => Seq::empty(),
                },
            };
            if v.len() > 0 {
                seq![v]
            } else {
                Seq::empty()
            }
        },
    }
}

/// The command-line parts contributed by a rule list, in declared order.
pub open spec fn args_parts(
    args: Seq<ArgumentConfig>,
    model: Seq<char>,
    esc_task: Seq<char>,
    mode_key: Seq<char>,
    headless: bool,
) -> Seq<Seq<char>>
    decreases args.len(),
{
    if args.len() == 0 {
        Seq::empty()
    } else {
        arg_parts(args[0], model, esc_task, mode_key, headless) + args_parts(
            args.drop_first(),
            model,
            esc_task,
            mode_key,
            headless,
        )
    }
}

proof fn lemma_args_parts_push(
    args: Seq<ArgumentConfig>,
    a: ArgumentConfig,
    model: Seq<char>,
    esc_task: Seq<char>,
    mode_key: Seq<char>,
    headless: bool,
)
    ensures
        args_parts(args.push(a), model, esc_task, mode_key, headless) == args_parts(
            args,
            model,
            esc_task,
            mode_key,
            headless,
        ) + arg_parts(a, model, esc_task, mode_key, headless),
    decreases args.len(),
{
    if args.len() == 0 {
        let p = arg_parts(a, model, esc_task, mode_key, headless);
        assert(args.push(a).len() == 1);
        assert(args.push(a)[0] == a);
        assert(args.push(a).drop_first() =~= Seq::<ArgumentConfig>::empty());
        assert(args_parts(Seq::<ArgumentConfig>::empty(), model, esc_task, mode_key, headless)
            == Seq::<Seq<char>>::empty());
        assert(args_parts(args.push(a), model, esc_task, mode_key, headless) == p + Seq::<
            Seq<char>,
        >::empty());
        assert(args_parts(args, model, esc_task, mode_key, headless) == Seq::<Seq<char>>::empty());
        assert(p + Seq::<Seq<char>>::empty() =~= Seq::<Seq<char>>::empty() + p);
    } else {
        assert(args.push(a)[0] == args[0]);
        assert(args.push(a).drop_first() =~= args.drop_first().push(a));
        lemma_args_parts_push(args.drop_first(), a, model, esc_task, mode_key, headless);
        let h = arg_parts(args[0], model, esc_task, mode_key, headless);
        let t = args_parts(args.drop_first(), model, esc_task, mode_key, headless);
        let p = arg_parts(a, model, esc_task, mode_key, headless);
        assert(h + (t + p) =~= (h + t) + p);
    }
}

/// The full command string of a declarative provider: the executable
/// followed by every rule's parts, joined with single spaces.
pub open spec fn dynamic_command_spec(
    config: ProviderConfig,
    model: Seq<char>,
    task: Seq<char>,
    mode_key: Seq<char>,
    headless: bool,
) -> Seq<char> {
    join_spaces(
        seq![config.executable@] + args_parts(
            config.arguments@,
            model,
            escape_seq(task),
            mode_key,
            headless,
        ),
    )
}

// ── DynamicProvider ─────────────────────────────────────────────────

/// A provider driven entirely by a declarative configuration.
pub struct DynamicProvider {
    pub config: ProviderConfig,
}

fn clone_model_options(v: &Vec<ModelOption>) -> (r: Vec<ModelOption>)
    ensures
        r@.map_values(|m: ModelOption| m@) =~= v@.map_values(|m: ModelOption| m@),
{
    let mut r: Vec<ModelOption> = Vec::new();
    let mut i: usize = 0;
    while i < v.len()
        invariant
            i <= v@.len(),
            r@.len() == i,
            forall|j: int| 0 <= j < i ==> r@[j]@ == v@[j]@,
        decreases v@.len() - i,
    {
        r.push(ModelOption { value: v[i].value.clone(), label: v[i].label.clone() });
        i += 1;
    }
    r
}

fn clone_permission_mode_options(v: &Vec<PermissionModeOption>) -> (r: Vec<PermissionModeOption>)
    ensures
        r@.map_values(|m: PermissionModeOption| m@) =~= v@.map_values(
            |m: PermissionModeOption| m@,
        ),
{
    let mut r: Vec<PermissionModeOption> = Vec::new();
    let mut i: usize = 0;
    while i < v.len()
        invariant
            i <= v@.len(),
            r@.len() == i,
            forall|j: int| 0 <= j < i ==> r@[j]@ == v@[j]@,
        decreases v@.len() - i,
    {
        r.push(
            PermissionModeOption {
                value: v[i].value.clone(),
                label: v[i].label.clone(),
                description: v[i].description.clone(),
            },
        );
        i += 1;
    }
    r
}

fn clone_strings(v: &Vec<String>) -> (r: Vec<String>)
    ensures
        r@.map_values(|s: String| s@) =~= v@.map_values(|s: String| s@),
{
    let mut r: Vec<String> = Vec::new();
    let mut i: usize = 0;
    while i < v.len()
        invariant
            i <= v@.len(),
            r@.len() == i,
            forall|j: int| 0 <= j < i ==> r@[j]@ == v@[j]@,
        decreases v@.len() - i,
    {
        r.push(v[i].clone());
        i += 1;
    }
    r
}

impl DynamicProvider {
    pub fn new(config: ProviderConfig) -> (r: DynamicProvider)
        ensures
            r.config == config,
    {
        DynamicProvider { config }
    }

    /// The descriptive information of this provider, cloned from its
    /// configuration.
    pub fn info(&self) -> (r: ProviderInfo)
        ensures
            r@.id == self.config.id@,
            r@.name == self.config.name@,
            r@.models == self.config.info.models@.map_values(|m: ModelOption| m@),
            r@.permission_modes == self.config.info.permission_modes@.map_values(
                |m: PermissionModeOption| m@,
            ),
            r@.default_model == self.config.info.default_model@,
            r@.default_permission_mode == self.config.info.default_permission_mode@,
    {
        ProviderInfo {
            id: self.config.id.clone(),
            name: self.config.name.clone(),
            models: clone_model_options(&self.config.info.models),
            permission_modes: clone_permission_mode_options(&self.config.info.permission_modes),
            default_model: self.config.info.default_model.clone(),
            default_permission_mode: self.config.info.default_permission_mode.clone(),
        }
    }

    /// Interprets the configured rules in order and joins the resulting
    /// parts with single spaces. Deterministic: the result is a function of
    /// the inputs and the configuration alone.
    pub fn build_spawn_command(
        &self,
        model: &str,
        task: &str,
        permission_mode: Option<&str>,
        dangerously_ignore_permissions: bool,
        auto_accept_edits: bool,
        headless: bool,
    ) -> (r: SpawnCommand)
        ensures
            r.command@ == dynamic_command_spec(
                self.config,
                model@,
                task@,
                mode_key_spec(permission_mode, dangerously_ignore_permissions, auto_accept_edits),
                headless,
            ),
            r.env_vars@.len() == 0,
    {
        let ghost gmodel = model@;
        let ghost gtask = task@;
        let ghost gmode = mode_key_spec(
            permission_mode,
            dangerously_ignore_permissions,
            auto_accept_edits,
        );
        let escaped_task = shell_escape_double_quoted(task);
        let mode_key = resolve_permission_mode_key(
            permission_mode,
            dangerously_ignore_permissions,
            auto_accept_edits,
        );
        let mut parts: Vec<String> = Vec::new();
        parts.push(self.config.executable.clone());

        let args = &self.config.arguments;
        let mut i: usize = 0;
        while i < args.len()
            invariant
                i <= args@.len(),
                args@ == self.config.arguments@,
                gmodel == model@,
                escaped_task@ == escape_seq(gtask),
                mode_key@ == gmode,
                part_views(parts@) == seq![self.config.executable@] + args_parts(
                    args@.take(i as int),
                    gmodel,
                    escape_seq(gtask),
                    gmode,
                    headless,
                ),
            decreases args@.len() - i,
        {
            let ghost parts_before = part_views(parts@);
            let ghost ap = arg_parts(args@[i as int], gmodel, escape_seq(gtask), gmode, headless);
            match &args[i] {
                ArgumentConfig::Literal { value } => {
                    parts.push(value.clone());
                    proof {
                        assert(part_views(parts@) =~= parts_before + ap);
                    }
                },
                ArgumentConfig::Model { flag, ignore_if_auto } => {
                    if str_eq(model, "auto") && *ignore_if_auto {
                        proof {
                            assert(part_views(parts@) =~= parts_before + ap);
                        }
                    } else {
                        if !flag.as_str().is_empty() {
                            parts.push(flag.clone());
                        }
                        parts.push(String::from_str(model));
                        proof {
                            assert(part_views(parts@) =~= parts_before + ap);
                        }
                    }
                },
                ArgumentConfig::Task { quote } => {
                    if *quote {
                        let mut quoted = String::new();
                        push_char(&mut quoted, '"');
                        quoted.append(escaped_task.as_str());
                        push_char(&mut quoted, '"');
                        proof {
                            assert(quoted@ =~= seq!['"'] + escape_seq(gtask) + seq!['"']);
                        }
                        parts.push(quoted);
                        proof {
                            assert(part_views(parts@) =~= parts_before + ap);
                        }
                    } else {
                        parts.push(escaped_task.clone());
                        proof {
                            assert(part_views(parts@) =~= parts_before + ap);
                        }
                    }
                },
                ArgumentConfig::Headless { flag, interactive_flag } => {
                    if headless {
                        parts.push(flag.clone());
                        proof {
                            assert(part_views(parts@) =~= parts_before + ap);
                        }
                    } else {
                        match interactive_flag {
                            Some(interactive) => {
                                parts.push(interactive.clone());
                                proof {
                                    assert(part_views(parts@) =~= parts_before + ap);
                                }
                            },
                            None => {
                                proof {
                                    assert(part_views(parts@) =~= parts_before + ap);
                                }
                            },
                        }
                    }
                },
                ArgumentConfig::Permission { map, fallback } => {
                    let flag_val = match assoc_get(map, mode_key.as_str()) {
                        Some(v) => v,
                        None => match fallback {
                            Some(f) => f.clone(),
                            None => String::new(),
                        },
                    };
                    if !flag_val.as_str().is_empty() {
                        parts.push(flag_val);
                        proof {
                            assert(part_views(parts@) =~= parts_before + ap);
                        }
                    } else {
                        proof {
                            assert(part_views(parts@) =~= parts_before + ap);
                        }
                    }
                },
            }
            proof {
                assert(part_views(parts@) == parts_before + ap);
                assert(args@.take(i as int).push(args@[i as int]) =~= args@.take(i + 1 as int));
                lemma_args_parts_push(
                    args@.take(i as int),
                    args@[i as int],
                    gmodel,
                    escape_seq(gtask),
                    gmode,
                    headless,
                );
                assert(seq![self.config.executable@] + (args_parts(
                    args@.take(i as int),
                    gmodel,
                    escape_seq(gtask),
                    gmode,
                    headless,
                ) + ap) =~= (seq![self.config.executable@] + args_parts(
                    args@.take(i as int),
                    gmodel,
                    escape_seq(gtask),
                    gmode,
                    headless,
                )) + ap);
            }
            i += 1;
        }
        proof {
            assert(args@.take(args@.len() as int) =~= args@);
        }
        let command = join_parts(&parts);
        SpawnCommand { command, env_vars: Vec::new() }
    }

    pub fn version_check(&self) -> (r: VersionCheck)
        ensures
            r.command@ == self.config.version_check.command@,
            r.args@.map_values(|s: String| s@) == self.config.version_check.args@.map_values(
                |s: String| s@,
            ),
    {
        VersionCheck {
            command: self.config.version_check.command.clone(),
            args: clone_strings(&self.config.version_check.args),
        }
    }

    pub fn prompt_template(&self) -> (r: PromptTemplate)
        ensures
            r.template@ == self.config.prompt_template@,
    {
        PromptTemplate { template: self.config.prompt_template.clone() }
    }
}

// ── CrushProvider ───────────────────────────────────────────────────

/// Whether a resolved permission-mode key maps to the autonomous `--yolo`
/// flag.
pub open spec fn crush_yolo(mode_key: Seq<char>) -> bool {
    mode_key == "yolo"@ || mode_key == "bypassPermissions"@
}

/// The command string of the hard-coded provider. When no explicit mode is
/// supplied, the mode key comes from the legacy three-flag mapping, which
/// every builder variant preserves.
pub open spec fn crush_command_spec(
    model: Seq<char>,
    task: Seq<char>,
    permission_mode: Option<&str>,
    dangerously_ignore_permissions: bool,
    auto_accept_edits: bool,
) -> Seq<char> {
    "crush"@ + (if model != "auto"@ {
        " --model "@ + model
    } else {
        Seq::<char>::empty()
    }) + (if crush_yolo(
        mode_key_spec(permission_mode, dangerously_ignore_permissions, auto_accept_edits),
    ) {
        " --yolo"@
    } else {
        Seq::<char>::empty()
    }) + " \""@ + escape_seq(task) + seq!['"']
}

/// The hard-coded fallback provider.
pub struct CrushProvider;

impl CrushProvider {
    pub fn info(&self) -> (r: ProviderInfo)
        ensures
            r@.id == "crush"@,
            r@.name == "Crush"@,
            r@.models.len() == 2,
            r@.models[0].value == "auto"@,
            r@.models[0].label == "Auto / Default"@,
            r@.models[1].value == "moonshotai/kimi-k2-thinking"@,
            r@.models[1].label == "Moonshot Kimi k2 Thinking"@,
            r@.permission_modes.len() == 2,
            r@.permission_modes[0].value == "yolo"@,
            r@.permission_modes[0].label == "YOLO (Autonomous)"@,
            r@.permission_modes[0].description == "Skip all permission prompts (--yolo)"@,
            r@.permission_modes[1].value == "default"@,
            r@.permission_modes[1].label == "Interactive"@,
            r@.permission_modes[1].description == "Ask for permissions"@,
            r@.default_model == "auto"@,
            r@.default_permission_mode == "default"@,
    {
        let mut models: Vec<ModelOption> = Vec::new();
        models.push(
            ModelOption {
                value: String::from_str("auto"),
                label: String::from_str("Auto / Default"),
            },
        );
        models.push(
            ModelOption {
                value: String::from_str("moonshotai/kimi-k2-thinking"),
                label: String::from_str("Moonshot Kimi k2 Thinking"),
            },
        );
        let mut permission_modes: Vec<PermissionModeOption> = Vec::new();
        permission_modes.push(
            PermissionModeOption {
                value: String::from_str("yolo"),
                label: String::from_str("YOLO (Autonomous)"),
                description: String::from_str("Skip all permission prompts (--yolo)"),
            },
        );
        permission_modes.push(
            PermissionModeOption {
                value: String::from_str("default"),
                label: String::from_str("Interactive"),
                description: String::from_str("Ask for permissions"),
            },
        );
        ProviderInfo {
            id: String::from_str("crush"),
            name: String::from_str("Crush"),
            models,
            permission_modes,
            default_model: String::from_str("auto"),
            default_permission_mode: String::from_str("default"),
        }
    }

    /// Builds the fixed `crush` invocation: an optional model flag, the
    /// `--yolo` flag for the two autonomous modes — resolved through the
    /// legacy three-flag mapping when no explicit mode is supplied — and the
    /// always-quoted, always-escaped task text.
    pub fn build_spawn_command(
        &self,
        model: &str,
        task: &str,
        permission_mode: Option<&str>,
        dangerously_ignore_permissions: bool,
        auto_accept_edits: bool,
        _headless: bool,
    ) -> (r: SpawnCommand)
        ensures
            r.command@ == crush_command_spec(
                model@,
                task@,
                permission_mode,
                dangerously_ignore_permissions,
                auto_accept_edits,
            ),
            r.env_vars@.len() == 0,
    {
        let escaped_task = shell_escape_double_quoted(task);
        let mode_key = resolve_permission_mode_key(
            permission_mode,
            dangerously_ignore_permissions,
            auto_accept_edits,
        );

        let mut cmd = String::from_str("crush");

        if !str_eq(model, "auto") {
            cmd.append(" --model ");
            cmd.append(model);
        }

        if str_eq(mode_key.as_str(), "yolo") || str_eq(mode_key.as_str(), "bypassPermissions") {
            cmd.append(" --yolo");
        }

        cmd.append(" \"");
        cmd.append(escaped_task.as_str());
        push_char(&mut cmd, '"');

        SpawnCommand { command: cmd, env_vars: Vec::new() }
    }

    pub fn version_check(&self) -> (r: VersionCheck)
        ensures
            r.command@ == "crush"@,
            r.args@.len() == 1,
            r.args@[0]@ == "--version"@,
    {
        let mut args: Vec<String> = Vec::new();
        args.push(String::from_str("--version"));
        VersionCheck { command: String::from_str("crush"), args }
    }

    pub fn prompt_template(&self) -> (r: PromptTemplate)
        ensures
            r.template@ == "crush \""@,
    {
        PromptTemplate { template: String::from_str("crush \"") }
    }
}

// ── Lexicographic order on identifiers ──────────────────────────────

/// Lexicographic order on character sequences, by scalar value.
pub open spec fn lex_le(a: Seq<char>, b: Seq<char>) -> bool
    decreases a.len(),
{
    if a.len() == 0 {
        true
    } else if b.len() == 0 {
        false
    } else if (a[0] as u32) < (b[0] as u32) {
        true
    } else if (a[0] as u32) > (b[0] as u32) {
        false
    } else {
        lex_le(a.drop_first(), b.drop_first())
    }
}

pub proof fn lemma_lex_le_total(a: Seq<char>, b: Seq<char>)
    ensures
        lex_le(a, b) || lex_le(b, a),
    decreases a.len(),
{
    if a.len() == 0 || b.len() == 0 {
    } else if (a[0] as u32) == (b[0] as u32) {
        lemma_lex_le_total(a.drop_first(), b.drop_first());
    }
}

pub proof fn lemma_lex_le_trans(a: Seq<char>, b: Seq<char>, c: Seq<char>)
    requires
        lex_le(a, b),
        lex_le(b, c),
    ensures
        lex_le(a, c),
    decreases a.len(),
{
    if a.len() == 0 {
    } else {
        if (a[0] as u32) == (b[0] as u32) && (b[0] as u32) == (c[0] as u32) {
            lemma_lex_le_trans(a.drop_first(), b.drop_first(), c.drop_first());
        }
    }
}

fn str_le_from(a: &str, b: &str, i: usize) -> (r: bool)
    requires
        i <= a@.len(),
        i <= b@.len(),
    ensures
        r == lex_le(a@.skip(i as int), b@.skip(i as int)),
    decreases a@.len() - i,
{
    let alen = a.unicode_len();
    let blen = b.unicode_len();
    if i == alen {
        assert(a@.skip(i as int).len() == 0);
        true
    } else if i == blen {
        assert(b@.skip(i as int).len() == 0);
        assert(a@.skip(i as int).len() > 0);
        false
    } else {
        let ca = a.get_char(i);
        let cb = b.get_char(i);
        assert(a@.skip(i as int)[0] == a@[i as int]);
        assert(b@.skip(i as int)[0] == b@[i as int]);
        if (ca as u32) < (cb as u32) {
            true
        } else if (ca as u32) > (cb as u32) {
            false
        } else {
            let r = str_le_from(a, b, i + 1);
            proof {
                assert(a@.skip(i as int).drop_first() =~= a@.skip(i + 1 as int));
                assert(b@.skip(i as int).drop_first() =~= b@.skip(i + 1 as int));
            }
            r
        }
    }
}

/// Lexicographic comparison of two string slices.
pub fn str_le(a: &str, b: &str) -> (r: bool)
    ensures
        r == lex_le(a@, b@),
{
    let r = str_le_from(a, b, 0);
    proof {
        assert(a@.skip(0) =~= a@);
        assert(b@.skip(0) =~= b@);
    }
    r
}

// ── Provider (either variant) ───────────────────────────────────────

/// One provider of the registry: either declarative or the hard-coded
/// fallback.
pub enum Provider {
    Dynamic(DynamicProvider),
    Crush(CrushProvider),
}

/// A provider's identifier.
pub open spec fn provider_id(p: Provider) -> Seq<char> {
    match p {
        Provider::Dynamic(d) => d.config.id@,
        Provider::Crush(_) => "crush"@,
    }
}

/// The descriptive information of the hard-coded provider.
pub open spec fn crush_info_v() -> ProviderInfoV {
    ProviderInfoV {
        id: "crush"@,
        name: "Crush"@,
        models: seq![
            ModelOptionV { value: "auto"@, label: "Auto / Default"@ },
            ModelOptionV {
                value: "moonshotai/kimi-k2-thinking"@,
                label: "Moonshot Kimi k2 Thinking"@,
            },
        ],
        permission_modes: seq![
            PermissionModeOptionV {
                value: "yolo"@,
                label: "YOLO (Autonomous)"@,
                description: "Skip all permission prompts (--yolo)"@,
            },
            PermissionModeOptionV {
                value: "default"@,
                label: "Interactive"@,
                description: "Ask for permissions"@,
            },
        ],
        default_model: "auto"@,
        default_permission_mode: "default"@,
    }
}

/// The descriptive information of a declarative provider.
pub open spec fn dynamic_info_v(config: ProviderConfig) -> ProviderInfoV {
    ProviderInfoV {
        id: config.id@,
        name: config.name@,
        models: config.info.models@.map_values(|m: ModelOption| m@),
        permission_modes: config.info.permission_modes@.map_values(|m: PermissionModeOption| m@),
        default_model: config.info.default_model@,
        default_permission_mode: config.info.default_permission_mode@,
    }
}

/// The descriptive information of either provider variant.
pub open spec fn provider_info_v(p: Provider) -> ProviderInfoV {
    match p {
        Provider::Dynamic(d) => dynamic_info_v(d.config),
        Provider::Crush(_) => crush_info_v(),
    }
}

/// The command string either provider variant builds for the given request.
pub open spec fn provider_command_spec(
    p: Provider,
    model: Seq<char>,
    task: Seq<char>,
    permission_mode: Option<&str>,
    dangerously_ignore_permissions: bool,
    auto_accept_edits: bool,
    headless: bool,
) -> Seq<char> {
    match p {
        Provider::Dynamic(d) => dynamic_command_spec(
            d.config,
            model,
            task,
            mode_key_spec(permission_mode, dangerously_ignore_permissions, auto_accept_edits),
            headless,
        ),
        Provider::Crush(_) => crush_command_spec(
            model,
            task,
            permission_mode,
            dangerously_ignore_permissions,
            auto_accept_edits,
        ),
    }
}

impl Provider {
    pub fn info(&self) -> (r: ProviderInfo)
        ensures
            r@ == provider_info_v(*self),
    {
        match self {
            Provider::Dynamic(d) => d.info(),
            Provider::Crush(c) => {
                let r = c.info();
                proof {
                    assert(r@.models =~= crush_info_v().models);
                    assert(r@.permission_modes =~= crush_info_v().permission_modes);
                }
                r
            },
        }
    }

    pub fn build_spawn_command(
        &self,
        model: &str,
        task: &str,
        permission_mode: Option<&str>,
        dangerously_ignore_permissions: bool,
        auto_accept_edits: bool,
        headless: bool,
    ) -> (r: SpawnCommand)
        ensures
            r.command@ == provider_command_spec(
                *self,
                model@,
                task@,
                permission_mode,
                dangerously_ignore_permissions,
                auto_accept_edits,
                headless,
            ),
            r.env_vars@.len() == 0,
    {
        match self {
            Provider::Dynamic(d) => d.build_spawn_command(
                model,
                task,
                permission_mode,
                dangerously_ignore_permissions,
                auto_accept_edits,
                headless,
            ),
            Provider::Crush(c) => c.build_spawn_command(
                model,
                task,
                permission_mode,
                dangerously_ignore_permissions,
                auto_accept_edits,
                headless,
            ),
        }
    }

    pub fn version_check(&self) -> (r: VersionCheck)
        ensures
            match *self {
                Provider::Dynamic(d) => r.command@ == d.config.version_check.command@ && r.args@
                    .map_values(|s: String| s@) == d.config.version_check.args@.map_values(
                    |s: String| s@,
                ),
                Provider::Crush(_) => r.command@ == "crush"@ && r.args@.map_values(|s: String| s@)
                    =~= seq!["--version"@],
            },
    {
        match self {
            Provider::Dynamic(d) => d.version_check(),
            Provider::Crush(c) => {
                let r = c.version_check();
                proof {
                    assert(r.args@.map_values(|s: String| s@) =~= seq!["--version"@]);
                }
                r
            },
        }
    }

    /// The template a client uses to preview this provider's invocation.
    pub open spec fn prompt_template_spec(&self) -> Seq<char> {
        match *self {
            Provider::Dynamic(d) => d.config.prompt_template@,
            Provider::Crush(_) => "crush \""@,
        }
    }

    pub fn prompt_template(&self) -> (r: PromptTemplate)
        ensures
            r.template@ == self.prompt_template_spec(),
    {
        match self {
            Provider::Dynamic(d) => d.prompt_template(),
            Provider::Crush(c) => c.prompt_template(),
        }
    }
}

// ── AgentProvider capability ────────────────────────────────────────

/// The capability every provider offers: describe itself, build a spawn
/// command, name its version-check invocation, and hand out its prompt
/// template.
pub trait AgentProvider {
    fn info(&self) -> ProviderInfo;

    fn build_spawn_command(
        &self,
        model: &str,
        task: &str,
        permission_mode: Option<&str>,
        dangerously_ignore_permissions: bool,
        auto_accept_edits: bool,
        headless: bool,
    ) -> SpawnCommand;

    fn version_check(&self) -> VersionCheck;

    fn prompt_template(&self) -> PromptTemplate;
}

impl AgentProvider for DynamicProvider {
    fn info(&self) -> ProviderInfo {
        DynamicProvider::info(self)
    }

    fn build_spawn_command(
        &self,
        model: &str,
        task: &str,
        permission_mode: Option<&str>,
        dangerously_ignore_permissions: bool,
        auto_accept_edits: bool,
        headless: bool,
    ) -> SpawnCommand {
        DynamicProvider::build_spawn_command(
            self,
            model,
            task,
            permission_mode,
            dangerously_ignore_permissions,
            auto_accept_edits,
            headless,
        )
    }

    fn version_check(&self) -> VersionCheck {
        DynamicProvider::version_check(self)
    }

    fn prompt_template(&self) -> PromptTemplate {
        DynamicProvider::prompt_template(self)
    }
}

impl AgentProvider for CrushProvider {
    fn info(&self) -> ProviderInfo {
        CrushProvider::info(self)
    }

    fn build_spawn_command(
        &self,
        model: &str,
        task: &str,
        permission_mode: Option<&str>,
        dangerously_ignore_permissions: bool,
        auto_accept_edits: bool,
        headless: bool,
    ) -> SpawnCommand {
        CrushProvider::build_spawn_command(
            self,
            model,
            task,
            permission_mode,
            dangerously_ignore_permissions,
            auto_accept_edits,
            headless,
        )
    }

    fn version_check(&self) -> VersionCheck {
        CrushProvider::version_check(self)
    }

    fn prompt_template(&self) -> PromptTemplate {
        CrushProvider::prompt_template(self)
    }
}

/// The declarative builder is deterministic: any two spawn commands built
/// from identical (model, task, permission mode, flags, headless) inputs
/// against the same provider configuration carry byte-identical command
/// strings.
pub proof fn lemma_builder_deterministic(
    p: DynamicProvider,
    model: &str,
    task: &str,
    permission_mode: Option<&str>,
    dangerously_ignore_permissions: bool,
    auto_accept_edits: bool,
    headless: bool,
    r1: SpawnCommand,
    r2: SpawnCommand,
)
    requires
        r1.command@ == dynamic_command_spec(
            p.config,
            model@,
            task@,
            mode_key_spec(permission_mode, dangerously_ignore_permissions, auto_accept_edits),
            headless,
        ),
        r2.command@ == dynamic_command_spec(
            p.config,
            model@,
            task@,
            mode_key_spec(permission_mode, dangerously_ignore_permissions, auto_accept_edits),
            headless,
        ),
    ensures
        r1.command@ == r2.command@,
{
}

fn provider_id_matches(p: &Provider, id: &str) -> (r: bool)
    ensures
        r == (provider_id(*p) == id@),
{
    match p {
        Provider::Dynamic(d) => str_eq(d.config.id.as_str(), id),
        Provider::Crush(_) => str_eq("crush", id),
    }
}

// ── ProviderRegistry ────────────────────────────────────────────────

/// Index of the first provider with the given id, or -1 when none has it.
pub open spec fn index_of_id(ps: Seq<Provider>, id: Seq<char>) -> int
    decreases ps.len(),
{
    if ps.len() == 0 {
        -1
    } else if provider_id(ps[0]) == id {
        0
    } else {
        let r = index_of_id(ps.drop_first(), id);
        if r == -1 {
            -1
        } else {
            r + 1
        }
    }
}

pub open spec fn has_id(ps: Seq<Provider>, id: Seq<char>) -> bool {
    index_of_id(ps, id) >= 0
}

proof fn lemma_index_of_id_ensures(ps: Seq<Provider>, id: Seq<char>)
    ensures
        index_of_id(ps, id) >= -1,
        index_of_id(ps, id) == -1 ==> forall|j: int|
            0 <= j < ps.len() ==> provider_id(#[trigger] ps[j]) != id,
        index_of_id(ps, id) >= 0 ==> {
            let k = index_of_id(ps, id);
            &&& k < ps.len()
            &&& provider_id(ps[k]) == id
            &&& forall|j: int| 0 <= j < k ==> provider_id(#[trigger] ps[j]) != id
        },
    decreases ps.len(),
{
    if ps.len() == 0 {
    } else if provider_id(ps[0]) == id {
    } else {
        let t = ps.drop_first();
        lemma_index_of_id_ensures(t, id);
        assert(forall|j: int| 0 <= j < t.len() ==> #[trigger] t[j] == ps[j + 1]);
        if index_of_id(t, id) == -1 {
            assert forall|j: int| 0 <= j < ps.len() implies provider_id(#[trigger] ps[j])
                != id by {
                if j > 0 {
                    assert(ps[j] == t[j - 1]);
                    assert(provider_id(t[j - 1]) != id);
                }
            }
        } else {
            let k = index_of_id(t, id) + 1;
            assert(index_of_id(t, id) < t.len() && provider_id(t[index_of_id(t, id)]) == id);
            assert(index_of_id(ps, id) == k);
            assert(ps[k] == t[k - 1]);
            assert forall|j: int| 0 <= j < k implies provider_id(#[trigger] ps[j]) != id by {
                if j > 0 {
                    assert(ps[j] == t[j - 1]);
                    assert(provider_id(t[j - 1]) != id);
                }
            }
        }
    }
}

/// Adding one declarative configuration: replaces the provider that already
/// carries its id, or appends a new one.
pub open spec fn upsert_provider(ps: Seq<Provider>, config: ProviderConfig) -> Seq<Provider> {
    let k = index_of_id(ps, config.id@);
    if k >= 0 {
        ps.update(k, Provider::Dynamic(DynamicProvider { config }))
    } else {
        ps.push(Provider::Dynamic(DynamicProvider { config }))
    }
}

/// The providers resulting from folding the given configurations, in order,
/// over an initial provider list.
pub open spec fn fold_configs(ps: Seq<Provider>, configs: Seq<ProviderConfig>) -> Seq<Provider>
    decreases configs.len(),
{
    if configs.len() == 0 {
        ps
    } else {
        fold_configs(upsert_provider(ps, configs[0]), configs.drop_first())
    }
}

/// Identifier of the first provider whose id differs from `excluded`, if any.
pub open spec fn first_other_id(ps: Seq<Provider>, excluded: Seq<char>) -> Option<Seq<char>>
    decreases ps.len(),
{
    if ps.len() == 0 {
        None
    } else if provider_id(ps[0]) != excluded {
        Some(provider_id(ps[0]))
    } else {
        first_other_id(ps.drop_first(), excluded)
    }
}

proof fn lemma_index_of_id_at(ps: Seq<Provider>, id: Seq<char>, i: int)
    requires
        0 <= i < ps.len(),
        forall|j: int| 0 <= j < i ==> provider_id(#[trigger] ps[j]) != id,
        provider_id(ps[i]) == id,
    ensures
        index_of_id(ps, id) == i,
    decreases ps.len(),
{
    if i == 0 {
    } else {
        assert(provider_id(ps[0]) != id);
        let t = ps.drop_first();
        assert(forall|j: int| 0 <= j < t.len() ==> #[trigger] t[j] == ps[j + 1]);
        assert(t[i - 1] == ps[i]);
        assert forall|j: int| 0 <= j < i - 1 implies provider_id(#[trigger] t[j]) != id by {
            assert(t[j] == ps[j + 1]);
        }
        lemma_index_of_id_at(t, id, i - 1);
    }
}

proof fn lemma_index_of_id_none(ps: Seq<Provider>, id: Seq<char>)
    requires
        forall|j: int| 0 <= j < ps.len() ==> provider_id(#[trigger] ps[j]) != id,
    ensures
        index_of_id(ps, id) == -1,
    decreases ps.len(),
{
    if ps.len() > 0 {
        let t = ps.drop_first();
        assert(forall|j: int| 0 <= j < t.len() ==> #[trigger] t[j] == ps[j + 1]);
        assert forall|j: int| 0 <= j < t.len() implies provider_id(#[trigger] t[j]) != id by {
            assert(t[j] == ps[j + 1]);
        }
        lemma_index_of_id_none(t, id);
    }
}

proof fn lemma_first_other_id_ensures(ps: Seq<Provider>, excluded: Seq<char>)
    ensures
        match first_other_id(ps, excluded) {
            Some(id) => id != excluded && exists|j: int|
                0 <= j < ps.len() && provider_id(#[trigger] ps[j]) == id,
            None => forall|j: int| 0 <= j < ps.len() ==> provider_id(#[trigger] ps[j]) == excluded,
        },
    decreases ps.len(),
{
    if ps.len() > 0 && provider_id(ps[0]) != excluded {
    } else if ps.len() > 0 {
        let t = ps.drop_first();
        assert(forall|j: int| 0 <= j < t.len() ==> #[trigger] t[j] == ps[j + 1]);
        lemma_first_other_id_ensures(t, excluded);
        assert(first_other_id(ps, excluded) == first_other_id(t, excluded));
        match first_other_id(ps, excluded) {
            Some(id) => {
                let j = choose|j: int| 0 <= j < t.len() && provider_id(#[trigger] t[j]) == id;
                assert(ps[j + 1] == t[j]);
                assert(0 <= j + 1 < ps.len() && provider_id(ps[j + 1]) == id);
            },
            None => {
                assert forall|j: int|
                    0 <= j < ps.len() implies provider_id(#[trigger] ps[j]) == excluded by {
                    if j > 0 {
                        assert(ps[j] == t[j - 1]);
                        assert(provider_id(t[j - 1]) == excluded);
                    }
                }
            },
        }
    }
}

fn find_provider_index(ps: &Vec<Provider>, id: &str) -> (r: Option<usize>)
    ensures
        match r {
            Some(k) => k < ps@.len() && index_of_id(ps@, id@) == k as int,
            None => index_of_id(ps@, id@) == -1,
        },
{
    let mut i: usize = 0;
    while i < ps.len()
        invariant
            i <= ps@.len(),
            forall|j: int| 0 <= j < i ==> provider_id(#[trigger] ps@[j]) != id@,
        decreases ps@.len() - i,
    {
        if provider_id_matches(&ps[i], id) {
            proof {
                lemma_index_of_id_at(ps@, id@, i as int);
            }
            return Some(i);
        }
        i += 1;
    }
    proof {
        lemma_index_of_id_none(ps@, id@);
    }
    None
}

fn provider_id_string(p: &Provider) -> (r: String)
    ensures
        r@ == provider_id(*p),
{
    match p {
        Provider::Dynamic(d) => d.config.id.clone(),
        Provider::Crush(_) => String::from_str("crush"),
    }
}

fn find_first_other_id(ps: &Vec<Provider>, excluded: &str) -> (r: Option<String>)
    ensures
        match r {
            Some(id) => first_other_id(ps@, excluded@) == Some(id@),
            None => first_other_id(ps@, excluded@) is None,
        },
{
    let mut i: usize = 0;
    proof {
        assert(ps@.skip(0) =~= ps@);
    }
    while i < ps.len()
        invariant
            i <= ps@.len(),
            first_other_id(ps@, excluded@) == first_other_id(
                ps@.skip(i as int),
                excluded@,
            ),
            forall|j: int| 0 <= j < i ==> provider_id(#[trigger] ps@[j]) == excluded@,
        decreases ps@.len() - i,
    {
        let candidate = provider_id_string(&ps[i]);
        proof {
            assert(ps@.skip(i as int)[0] == ps@[i as int]);
            assert(ps@.skip(i as int).drop_first() =~= ps@.skip(i + 1 as int));
        }
        if !str_eq(candidate.as_str(), excluded) {
            return Some(candidate);
        }
        i += 1;
    }
    proof {
        assert(ps@.skip(ps@.len() as int).len() == 0);
    }
    None
}

/// The order in which providers are listed: the default provider first,
/// the rest by identifier.
pub open spec fn info_le(default_id: Seq<char>, a: ProviderInfoV, b: ProviderInfoV) -> bool {
    if a.id == default_id {
        true
    } else if b.id == default_id {
        false
    } else {
        lex_le(a.id, b.id)
    }
}

proof fn lemma_info_le_total(default_id: Seq<char>, a: ProviderInfoV, b: ProviderInfoV)
    ensures
        info_le(default_id, a, b) || info_le(default_id, b, a),
{
    lemma_lex_le_total(a.id, b.id);
}

proof fn lemma_info_le_trans(
    default_id: Seq<char>,
    a: ProviderInfoV,
    b: ProviderInfoV,
    c: ProviderInfoV,
)
    requires
        info_le(default_id, a, b),
        info_le(default_id, b, c),
    ensures
        info_le(default_id, a, c),
{
    if a.id != default_id && b.id != default_id && c.id != default_id {
        lemma_lex_le_trans(a.id, b.id, c.id);
    }
}

fn info_le_exec(default_id: &String, a: &ProviderInfo, b: &ProviderInfo) -> (r: bool)
    ensures
        r == info_le(default_id@, a@, b@),
{
    if str_eq(a.id.as_str(), default_id.as_str()) {
        true
    } else if str_eq(b.id.as_str(), default_id.as_str()) {
        false
    } else {
        str_le(a.id.as_str(), b.id.as_str())
    }
}

/// The views of a list of provider descriptions.
pub open spec fn info_views(infos: Seq<ProviderInfo>) -> Seq<ProviderInfoV> {
    infos.map_values(|pi: ProviderInfo| pi@)
}

fn sort_infos(default_id: &String, input: Vec<ProviderInfo>) -> (r: Vec<ProviderInfo>)
    ensures
        info_views(r@).to_multiset() == info_views(input@).to_multiset(),
        forall|i: int, j: int|
            0 <= i < j < r@.len() ==> info_le(default_id@, #[trigger] r@[i]@, #[trigger] r@[j]@),
{
    broadcast use vstd::seq_lib::group_to_multiset_ensures;
    broadcast use vstd::multiset::group_multiset_axioms;

    let ghost orig = info_views(input@);
    let mut input = input;
    let mut out: Vec<ProviderInfo> = Vec::new();
    proof {
        assert(info_views(out@) =~= Seq::<ProviderInfoV>::empty());
        assert(Seq::<ProviderInfoV>::empty().to_multiset() =~= Multiset::<ProviderInfoV>::empty())
            by {
            Seq::<ProviderInfoV>::empty().to_multiset_ensures();
            assert(Seq::<ProviderInfoV>::empty().to_multiset().len() == 0);
        }
        assert(Multiset::<ProviderInfoV>::empty().add(orig.to_multiset()) =~= orig.to_multiset());
    }
    while input.len() > 0
        invariant
            info_views(out@).to_multiset().add(info_views(input@).to_multiset())
                == orig.to_multiset(),
            forall|i: int, j: int|
                0 <= i < j < out@.len() ==> info_le(
                    default_id@,
                    #[trigger] out@[i]@,
                    #[trigger] out@[j]@,
                ),
            forall|i: int, j: int|
                0 <= i < out@.len() && 0 <= j < input@.len() ==> info_le(
                    default_id@,
                    #[trigger] out@[i]@,
                    #[trigger] input@[j]@,
                ),
        decreases input@.len(),
    {
        let mut m: usize = 0;
        let mut t: usize = 1;
        proof {
            lemma_info_le_total(default_id@, input@[0]@, input@[0]@);
        }
        while t < input.len()
            invariant
                m < t <= input@.len(),
                input@.len() > 0,
                forall|j: int|
                    0 <= j < t ==> info_le(default_id@, input@[m as int]@, #[trigger] input@[j]@),
            decreases input@.len() - t,
        {
            if !info_le_exec(default_id, &input[m], &input[t]) {
                proof {
                    lemma_info_le_total(default_id@, input@[m as int]@, input@[t as int]@);
                    assert forall|j: int|
                        0 <= j < t + 1 implies info_le(
                        default_id@,
                        input@[t as int]@,
                        #[trigger] input@[j]@,
                    ) by {
                        if j < t {
                            lemma_info_le_trans(
                                default_id@,
                                input@[t as int]@,
                                input@[m as int]@,
                                input@[j]@,
                            );
                        } else {
                            lemma_info_le_total(default_id@, input@[t as int]@, input@[t as int]@);
                        }
                    }
                }
                m = t;
            }
            t += 1;
        }
        let ghost out_before = info_views(out@);
        let ghost input_before = info_views(input@);
        let ghost gm = m as int;
        let x = input.remove(m);
        let ghost gx = x@;
        out.push(x);
        proof {
            broadcast use vstd::seq_lib::group_to_multiset_ensures;
            broadcast use vstd::multiset::group_multiset_axioms;

            assert(info_views(out@) =~= out_before.push(gx));
            assert(info_views(input@) =~= input_before.remove(gm));
            assert(input_before[gm] == gx);
            assert(input_before.contains(gx));
            assert(out_before.push(gx).to_multiset() =~= out_before.to_multiset().insert(gx));
            assert(input_before.remove(gm).to_multiset() == input_before.to_multiset().remove(gx));
            assert(input_before.to_multiset().count(gx) > 0);
            assert(info_views(out@).to_multiset().add(info_views(input@).to_multiset())
                =~= out_before.to_multiset().add(input_before.to_multiset()));
            assert forall|i: int, j: int|
                0 <= i < out@.len() && 0 <= j < input@.len() implies info_le(
                default_id@,
                #[trigger] out@[i]@,
                #[trigger] input@[j]@,
            ) by {
                let old_j = if j < gm {
                    j
                } else {
                    j + 1
                };
                assert(input@[j]@ == info_views(input@)[j]);
                assert(info_views(input@)[j] == input_before.remove(gm)[j]);
                assert(input_before.remove(gm)[j] == input_before[old_j]);
                if i < out@.len() - 1 {
                    assert(out@[i]@ == out_before[i]);
                    assert(info_le(default_id@, out_before[i], input_before[old_j]));
                } else {
                    assert(out@[i]@ == gx);
                    assert(info_le(default_id@, gx, input_before[old_j]));
                }
            }
        }
    }
    proof {
        assert(info_views(input@).to_multiset() =~= Multiset::<ProviderInfoV>::empty());
    }
    out
}

/// The process-wide collection of providers, with a designated default.
pub struct ProviderRegistry {
    pub providers: Vec<Provider>,
    pub default_id: String,
}

impl ProviderRegistry {
    /// Identifiers of all held providers, in order.
    pub open spec fn ids(&self) -> Seq<Seq<char>> {
        self.providers@.map_values(|p: Provider| provider_id(p))
    }

    /// Well-formedness: ids are distinct, the fallback provider is present,
    /// and the default id names a held provider.
    pub open spec fn wf(&self) -> bool {
        &&& forall|i: int, j: int|
            0 <= i < j < self.providers@.len() ==> provider_id(#[trigger] self.providers@[i])
                != provider_id(#[trigger] self.providers@[j])
        &&& has_id(self.providers@, "crush"@)
        &&& has_id(self.providers@, self.default_id@)
    }

    /// Builds the registry: the fallback provider first, then each
    /// declarative configuration in order, a configuration replacing any
    /// earlier provider that carries its id. The default is the provider
    /// with the well-known id `bolt` when present, else the first
    /// discovered provider that is not the fallback, else the fallback.
    pub fn new(configs: Vec<ProviderConfig>) -> (r: ProviderRegistry)
        ensures
            r.providers@ == fold_configs(seq![Provider::Crush(CrushProvider)], configs@),
            r.wf(),
            has_id(r.providers@, "bolt"@) ==> r.default_id@ == "bolt"@,
            !has_id(r.providers@, "bolt"@) ==> match first_other_id(r.providers@, "crush"@) {
                Some(id) => r.default_id@ == id,
                None => r.default_id@ == "crush"@,
            },
    {
        let mut configs = configs;
        let mut providers: Vec<Provider> = Vec::new();
        providers.push(Provider::Crush(CrushProvider));
        let ghost init = providers@;
        let ghost all = configs@;
        proof {
            assert(init =~= seq![Provider::Crush(CrushProvider)]);
        }
        while configs.len() > 0
            invariant
                fold_configs(providers@, configs@) == fold_configs(init, all),
                forall|i: int, j: int|
                    0 <= i < j < providers@.len() ==> provider_id(#[trigger] providers@[i])
                        != provider_id(#[trigger] providers@[j]),
                exists|i: int|
                    0 <= i < providers@.len() && provider_id(#[trigger] providers@[i])
                        == "crush"@,
            decreases configs@.len(),
        {
            let ghost ps_before = providers@;
            let ghost cs_before = configs@;
            let c = configs.remove(0);
            let ghost gc = c;
            match find_provider_index(&providers, c.id.as_str()) {
                Some(k) => {
                    let ghost k_int = k as int;
                    proof {
                        lemma_index_of_id_ensures(ps_before, gc.id@);
                    }
                    providers.remove(k);
                    providers.insert(k, Provider::Dynamic(DynamicProvider { config: c }));
                    proof {
                        assert(providers@ =~= ps_before.update(
                            k_int,
                            Provider::Dynamic(DynamicProvider { config: gc }),
                        ));
                        assert(providers@ == upsert_provider(ps_before, gc));
                        assert(provider_id(providers@[k_int]) == provider_id(ps_before[k_int]));
                        assert forall|i: int, j: int|
                            0 <= i < j < providers@.len() implies provider_id(
                            #[trigger] providers@[i],
                        ) != provider_id(#[trigger] providers@[j]) by {
                            assert(provider_id(providers@[i]) == provider_id(ps_before[i]));
                            assert(provider_id(providers@[j]) == provider_id(ps_before[j]));
                        }
                        let w = choose|i: int|
                            0 <= i < ps_before.len() && provider_id(#[trigger] ps_before[i])
                                == "crush"@;
                        assert(provider_id(providers@[w]) == "crush"@);
                    }
                },
                None => {
                    providers.push(Provider::Dynamic(DynamicProvider { config: c }));
                    proof {
                        lemma_index_of_id_ensures(ps_before, gc.id@);
                        assert(providers@ == upsert_provider(ps_before, gc));
                        assert forall|i: int, j: int|
                            0 <= i < j < providers@.len() implies provider_id(
                            #[trigger] providers@[i],
                        ) != provider_id(#[trigger] providers@[j]) by {
                            if j < providers@.len() - 1 {
                                assert(providers@[i] == ps_before[i]);
                                assert(providers@[j] == ps_before[j]);
                            } else {
                                assert(providers@[i] == ps_before[i]);
                                assert(provider_id(providers@[j]) == gc.id@);
                            }
                        }
                        let w = choose|i: int|
                            0 <= i < ps_before.len() && provider_id(#[trigger] ps_before[i])
                                == "crush"@;
                        assert(provider_id(providers@[w]) == "crush"@);
                    }
                },
            }
            proof {
                assert(configs@ =~= cs_before.drop_first());
                assert(cs_before[0] == gc);
                assert(fold_configs(providers@, configs@) == fold_configs(ps_before, cs_before));
            }
        }
        proof {
            assert(fold_configs(providers@, configs@) == providers@);
        }

        let has_bolt = match find_provider_index(&providers, "bolt") {
            Some(_) => true,
            None => false,
        };
        let default_id = if has_bolt {
            String::from_str("bolt")
        } else {
            match find_first_other_id(&providers, "crush") {
                Some(id) => id,
                None => String::from_str("crush"),
            }
        };
        proof {
            let ps = providers@;
            if !has_bolt {
                match first_other_id(ps, "crush"@) {
                    Some(id) => {
                        lemma_first_other_id_ensures(ps, "crush"@);
                        let j = choose|j: int|
                            0 <= j < ps.len() && provider_id(#[trigger] ps[j]) == id;
                        lemma_index_of_id_ensures(ps, id);
                        if index_of_id(ps, id) == -1 {
                            assert(provider_id(ps[j]) != id);
                        }
                    },
                    None => {},
                }
            }
            let w = choose|i: int|
                0 <= i < ps.len() && provider_id(#[trigger] ps[i]) == "crush"@;
            lemma_index_of_id_ensures(ps, "crush"@);
            if index_of_id(ps, "crush"@) == -1 {
                assert(provider_id(ps[w]) != "crush"@);
            }
        }
        ProviderRegistry { providers, default_id }
    }

    /// Looks up a provider by id.
    pub fn get(&self, id: &str) -> (r: Option<&Provider>)
        ensures
            match r {
                Some(p) => index_of_id(self.providers@, id@) >= 0 && *p == self.providers@[
                    index_of_id(self.providers@, id@)
                ],
                None => !has_id(self.providers@, id@),
            },
    {
        proof {
            lemma_index_of_id_ensures(self.providers@, id@);
        }
        match find_provider_index(&self.providers, id) {
            Some(k) => Some(&self.providers[k]),
            None => None,
        }
    }

    /// The designated default provider; always present in a well-formed
    /// registry.
    pub fn default_provider(&self) -> (r: &Provider)
        requires
            self.wf(),
        ensures
            provider_id(*r) == self.default_id@,
    {
        proof {
            lemma_index_of_id_ensures(self.providers@, self.default_id@);
        }
        match find_provider_index(&self.providers, self.default_id.as_str()) {
            Some(k) => &self.providers[k],
            None => vstd::pervasive::unreached(),
        }
    }

    /// All providers' descriptive information: the default provider first,
    /// the remainder ordered by id.
    pub fn list_providers(&self) -> (r: Vec<ProviderInfo>)
        ensures
            info_views(r@).to_multiset() == self.providers@.map_values(
                |p: Provider| provider_info_v(p),
            ).to_multiset(),
            forall|i: int, j: int|
                0 <= i < j < r@.len() ==> info_le(
                    self.default_id@,
                    #[trigger] r@[i]@,
                    #[trigger] r@[j]@,
                ),
    {
        let mut infos: Vec<ProviderInfo> = Vec::new();
        let mut i: usize = 0;
        while i < self.providers.len()
            invariant
                i <= self.providers@.len(),
                infos@.len() == i,
                forall|j: int| 0 <= j < i ==> (#[trigger] infos@[j])@ == provider_info_v(
                    self.providers@[j],
                ),
            decreases self.providers@.len() - i,
        {
            infos.push(self.providers[i].info());
            i += 1;
        }
        proof {
            assert(info_views(infos@) =~= self.providers@.map_values(
                |p: Provider| provider_info_v(p),
            ));
        }
        sort_infos(&self.default_id, infos)
    }
}

} // verus!
