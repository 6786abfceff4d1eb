//! The console: its state, what each command does to it and to the rule
//! table, and how key presses and logged packet events reach it.
use vstd::prelude::*;

use crate::command::{
    error_text, help_allow, help_block, help_general, opt_view, parse_chars, rule_target_to_spec,
    spec_help_allow, spec_help_block, spec_help_general, spec_parse, spec_rule_target_to_spec,
    texts, Command, CommandModel, RemoveTarget, RemoveTargetModel, RuleTarget, RuleTargetModel,
};
use crate::logs::LogEvent;
use crate::rules::Action;
use crate::firewall::active_limit;
use crate::table::{
    insert_rule, lemma_listed, list_rules, remove_all_rules, remove_rule, remove_rules_by_ip,
    push_table_error, rule_of, spec_insert, spec_list, spec_remove, spec_remove_all,
    spec_remove_by_ip, table_error_text, table_wf, RuleTable, RuleTableModel,
};
use crate::text::{
    chars_of, dec, ipv4_text, is_word, parse_ipv4, parse_ipv4_addr, push_chars, push_dec,
    push_ipv4, push_str, string_of,
};
use crate::util::{
    cidr_error_text, format_rule_chars, is_hms, local_time_hms, push_cidr_error, push_stamped,
    rule_text, stamp_text,
};

verus! {

// ---------------------------------------------------------------------------
// State.
// ---------------------------------------------------------------------------

/// The console's state.
pub struct App {
    /// The line being typed.
    pub input: String,
    /// Lines about packets that were let through.
    pub allow_logs: Vec<String>,
    /// Lines about packets that were dropped.
    pub deny_logs: Vec<String>,
    /// Replies to commands.
    pub system_logs: Vec<String>,
    /// Set when the user asked to leave.
    pub should_exit: bool,
    /// The rule maps of the loaded XDP program; `None` until it is loaded.
    pub rules: Option<RuleTable>,
}

#[verifier::ext_equal]
pub struct AppModel {
    pub input: Seq<char>,
    pub allow_logs: Seq<Seq<char>>,
    pub deny_logs: Seq<Seq<char>>,
    pub system_logs: Seq<Seq<char>>,
    pub should_exit: bool,
    pub rules: Option<RuleTableModel>,
}

pub open spec fn strings(v: Seq<String>) -> Seq<Seq<char>> {
    v.map_values(|s: String| s@)
}

pub open spec fn table_view(t: Option<RuleTable>) -> Option<RuleTableModel> {
    match t {
        Some(t) => Some(t@),
        None => None,
    }
}

impl View for App {
    type V = AppModel;

    open spec fn view(&self) -> AppModel {
        AppModel {
            input: self.input@,
            allow_logs: strings(self.allow_logs@),
            deny_logs: strings(self.deny_logs@),
            system_logs: strings(self.system_logs@),
            should_exit: self.should_exit,
            rules: table_view(self.rules),
        }
    }
}

pub open spec fn rules_wf(t: Option<RuleTableModel>) -> bool {
    t matches Some(m) ==> table_wf(m)
}

impl App {
    /// A console with nothing typed, no lines and no program loaded.
    pub fn new() -> (r: App)
        ensures
            r@ == (AppModel {
                input: Seq::empty(),
                allow_logs: Seq::empty(),
                deny_logs: Seq::empty(),
                system_logs: Seq::empty(),
                should_exit: false,
                rules: None,
            }),
    {
        let r = App {
            input: String::new(),
            allow_logs: Vec::new(),
            deny_logs: Vec::new(),
            system_logs: Vec::new(),
            should_exit: false,
            rules: None,
        };
        assert(r@ =~= AppModel {
            input: Seq::empty(),
            allow_logs: Seq::empty(),
            deny_logs: Seq::empty(),
            system_logs: Seq::empty(),
            should_exit: false,
            rules: None,
        });
        r
    }
}

// ---------------------------------------------------------------------------
// Replies.
// ---------------------------------------------------------------------------

/// A reply line, shown with or without the time it was written.
#[verifier::ext_equal]
pub struct SysLine {
    pub text: Seq<char>,
    pub stamped: bool,
}

pub struct SystemLine {
    pub text: Vec<char>,
    pub stamped: bool,
}

impl View for SystemLine {
    type V = SysLine;

    open spec fn view(&self) -> SysLine {
        SysLine { text: self.text@, stamped: self.stamped }
    }
}

pub open spec fn line_views(v: Seq<SystemLine>) -> Seq<SysLine> {
    v.map_values(|l: SystemLine| l@)
}

pub open spec fn stamped(t: Seq<char>) -> SysLine {
    SysLine { text: t, stamped: true }
}

pub open spec fn plain(t: Seq<char>) -> SysLine {
    SysLine { text: t, stamped: false }
}

pub open spec fn render(stamp: Seq<char>, l: SysLine) -> Seq<char> {
    if l.stamped {
        stamp_text(stamp, l.text)
    } else {
        l.text
    }
}

/// What one command does: the rule table afterwards, whether the replies
/// are cleared first, and the reply lines.
#[verifier::ext_equal]
pub struct Outcome {
    pub rules: Option<RuleTableModel>,
    pub clear: bool,
    pub lines: Seq<SysLine>,
}

/// The console after an outcome, with `stamp` as the time of its lines.
pub open spec fn apply(m: AppModel, o: Outcome, stamp: Seq<char>) -> AppModel {
    AppModel {
        system_logs: (if o.clear {
            Seq::empty()
        } else {
            m.system_logs
        }) + o.lines.map_values(|l: SysLine| render(stamp, l)),
        rules: o.rules,
        ..m
    }
}

pub open spec fn say(rules: Option<RuleTableModel>, t: Seq<char>) -> Outcome {
    Outcome { rules, clear: false, lines: seq![stamped(t)] }
}

pub open spec fn help_outcome(rules: Option<RuleTableModel>, topic: Option<Seq<char>>) -> Outcome {
    match topic {
        None => Outcome {
            rules,
            clear: false,
            lines: spec_help_general().map_values(|t: Seq<char>| plain(t)),
        },
        Some(t) => if t == "block"@ || t == "deny"@ {
            Outcome { rules, clear: false, lines: spec_help_block().map_values(|t: Seq<char>| plain(t)) }
        } else if t == "allow"@ {
            Outcome { rules, clear: false, lines: spec_help_allow().map_values(|t: Seq<char>| plain(t)) }
        } else {
            say(rules, "unknown help topic: "@ + t + " (try: block, allow)"@)
        },
    }
}

pub open spec fn rules_outcome(rules: Option<RuleTableModel>, filter: Option<Seq<char>>) -> Outcome {
    match rules {
        None => say(rules, "eBPF not loaded"@),
        Some(t) => if filter matches Some(ip) && parse_ipv4(ip) is None {
            say(rules, "invalid filter ip"@)
        } else {
            let f = match filter {
                Some(ip) => Some(parse_ipv4(ip)->Some_0),
                None => None,
            };
            let list = spec_list(t, f);
            if list.len() == 0 {
                say(
                    rules,
                    match filter {
                        Some(ip) => "no rules matching "@ + ip,
                        None => "no active rules"@,
                    },
                )
            } else {
                let header = match filter {
                    Some(ip) => dec(list.len()) + " rule(s) matching "@ + ip + ":"@,
                    None => dec(list.len()) + " active rule(s):"@,
                };
                Outcome {
                    rules,
                    clear: false,
                    lines: seq![stamped(header)] + list.map_values(
                        |e: (u32, crate::rules::Rule)| plain(rule_text(e.0, e.1)),
                    ),
                }
            }
        },
    }
}

pub open spec fn remove_outcome(rules: Option<RuleTableModel>, target: RemoveTargetModel) -> Outcome {
    match rules {
        None => say(rules, "eBPF not loaded"@),
        Some(t) => match target {
            RemoveTargetModel::All => say(
                Some(spec_remove_all(t)),
                "removed all "@ + dec(t.count as nat) + " rule(s)"@,
            ),
            RemoveTargetModel::ById(id) => {
                let (r, t1) = spec_remove(t, id);
                match r {
                    Ok(()) => say(Some(t1), "removed rule #"@ + dec(id as nat)),
                    Err(e) => say(Some(t1), "remove failed: "@ + table_error_text(e)),
                }
            },
            RemoveTargetModel::ByIp(ip) => match parse_ipv4(ip) {
                None => say(rules, "remove failed: invalid ip: invalid IPv4 address syntax"@),
                Some(a) => {
                    let (r, t1) = spec_remove_by_ip(t, a);
                    match r {
                        Ok(n) => say(
                            Some(t1),
                            if n == 0 {
                                "no rules matching "@ + ip
                            } else {
                                "removed "@ + dec(n as nat) + " rule(s) matching "@ + ip
                            },
                        ),
                        Err(e) => say(Some(t1), "remove failed: "@ + table_error_text(e)),
                    }
                },
            },
        },
    }
}

pub open spec fn rule_outcome(
    rules: Option<RuleTableModel>,
    target: RuleTargetModel,
    action: Action,
    verb: Seq<char>,
) -> Outcome {
    match spec_rule_target_to_spec(target) {
        Err(e) => say(rules, verb + " failed: "@ + cidr_error_text(e)),
        Ok((spec, desc)) => match rules {
            None => say(rules, "eBPF not loaded"@),
            Some(t) => {
                let (r, t1) = spec_insert(
                    t,
                    rule_of(
                        spec.src_ip,
                        spec.src_mask,
                        spec.src_port,
                        spec.dest_ip,
                        spec.dest_mask,
                        spec.dest_port,
                        spec.protocol.spec_protocol(),
                        action,
                    ),
                );
                match r {
                    Ok(()) => say(Some(t1), verb + " "@ + desc),
                    Err(e) => say(
                        Some(t1),
                        verb + " "@ + desc + " failed: "@ + table_error_text(e),
                    ),
                }
            },
        },
    }
}

/// What a command does.
pub open spec fn spec_execute(rules: Option<RuleTableModel>, cmd: CommandModel) -> Outcome {
    match cmd {
        CommandModel::Help { topic } => help_outcome(rules, topic),
        CommandModel::Block(t) => rule_outcome(rules, t, Action::Drop, "blocked"@),
        CommandModel::Allow(t) => rule_outcome(rules, t, Action::Allow, "allowed"@),
        CommandModel::Rules { ip } => rules_outcome(rules, ip),
        CommandModel::Remove(t) => remove_outcome(rules, t),
        CommandModel::Clear => Outcome {
            rules,
            clear: true,
            lines: seq![stamped("system logs cleared"@)],
        },
    }
}

/// What a typed line does: "clear" (exactly) clears the replies; any other
/// line is parsed and run, or its error is shown.
pub open spec fn spec_handle_input(rules: Option<RuleTableModel>, input: Seq<char>) -> Outcome {
    if input == "clear"@ {
        spec_execute(rules, CommandModel::Clear)
    } else {
        match spec_parse(input) {
            Ok(cmd) => spec_execute(rules, cmd),
            Err(e) => say(rules, error_text(e)),
        }
    }
}

// ---------------------------------------------------------------------------
// Running commands.
// ---------------------------------------------------------------------------

fn one_line(t: Vec<char>) -> (r: Vec<SystemLine>)
    ensures
        line_views(r@) == seq![stamped(t@)],
{
    let mut r: Vec<SystemLine> = Vec::new();
    r.push(SystemLine { text: t, stamped: true });
    assert(line_views(r@) =~= seq![stamped(t@)]);
    r
}

fn text_of(s: &str) -> (r: Vec<char>)
    ensures
        r@ == s@,
{
    chars_of(s)
}

fn plain_lines(v: Vec<&'static str>) -> (r: Vec<SystemLine>)
    ensures
        line_views(r@) == texts(v@).map_values(|t: Seq<char>| plain(t)),
{
    let mut r: Vec<SystemLine> = Vec::new();
    let mut i: usize = 0;
    while i < v.len()
        invariant
            i <= v.len(),
            line_views(r@) == texts(v@.take(i as int)).map_values(|t: Seq<char>| plain(t)),
        decreases v.len() - i,
    {
        r.push(SystemLine { text: chars_of(v[i]), stamped: false });
        assert(texts(v@.take(i + 1)).map_values(|t: Seq<char>| plain(t)) =~= texts(
            v@.take(i as int),
        ).map_values(|t: Seq<char>| plain(t)).push(plain(v@[i as int]@)));
        assert(line_views(r@) =~= line_views(r@.drop_last()).push(r@.last()@));
        i += 1;
    }
    assert(v@.take(v.len() as int) =~= v@);
    r
}

fn help_lines(topic: &Option<String>) -> (r: Vec<SystemLine>)
    ensures
        line_views(r@) == help_outcome(None, opt_view(*topic)).lines,
{
    match topic {
        None => plain_lines(help_general()),
        Some(t) => {
            let tv = chars_of(t.as_str());
            if is_word(&tv, "block") || is_word(&tv, "deny") {
                plain_lines(help_block())
            } else if is_word(&tv, "allow") {
                plain_lines(help_allow())
            } else {
                let mut m = text_of("unknown help topic: ");
                push_chars(&mut m, &tv);
                push_str(&mut m, " (try: block, allow)");
                one_line(m)
            }
        },
    }
}

fn rules_lines(rules: &Option<RuleTable>, filter: &Option<String>) -> (r: Vec<SystemLine>)
    requires
        rules_wf(table_view(*rules)),
    ensures
        line_views(r@) == rules_outcome(table_view(*rules), opt_view(*filter)).lines,
{
    let t = match rules {
        Some(t) => t,
        None => return one_line(text_of("eBPF not loaded")),
    };
    let f: Option<u32> = match filter {
        Some(ip) => match parse_ipv4_addr(&chars_of(ip.as_str())) {
            Some(a) => Some(a),
            None => return one_line(text_of("invalid filter ip")),
        },
        None => None,
    };
    let list = list_rules(t, f);
    proof {
        lemma_listed(t@.slots, active_limit(t@.count), f);
    }
    if list.len() == 0 {
        let m = match filter {
            Some(ip) => {
                let mut m = text_of("no rules matching ");
                push_str(&mut m, ip.as_str());
                m
            },
            None => text_of("no active rules"),
        };
        return one_line(m);
    }
    let mut header: Vec<char> = Vec::new();
    push_dec(&mut header, list.len() as u32);
    match filter {
        Some(ip) => {
            push_str(&mut header, " rule(s) matching ");
            push_str(&mut header, ip.as_str());
            push_str(&mut header, ":");
        },
        None => {
            push_str(&mut header, " active rule(s):");
        },
    }
    let ghost hdr = header@;
    assert(hdr =~= match opt_view(*filter) {
        Some(ip) => dec(list@.len()) + " rule(s) matching "@ + ip + ":"@,
        None => dec(list@.len()) + " active rule(s):"@,
    });
    let mut r = one_line(header);
    let ghost listed = list@;
    let mut i: usize = 0;
    while i < list.len()
        invariant
            i <= list.len(),
            list@ == listed,
            line_views(r@) == seq![stamped(hdr)] + listed.take(i as int).map_values(
                |e: (u32, crate::rules::Rule)| plain(rule_text(e.0, e.1)),
            ),
            r@.len() >= 1,
        decreases list.len() - i,
    {
        let (idx, rule) = list[i];
        let ghost before = line_views(r@);
        r.push(SystemLine { text: format_rule_chars(idx, &rule), stamped: false });
        assert(line_views(r@) =~= before.push(plain(rule_text(idx, rule))));
        assert(listed.take(i + 1).map_values(|e: (u32, crate::rules::Rule)| plain(rule_text(e.0, e.1)))
            =~= listed.take(i as int).map_values(
            |e: (u32, crate::rules::Rule)| plain(rule_text(e.0, e.1)),
        ).push(plain(rule_text(idx, rule))));
        i += 1;
    }
    assert(listed.take(list.len() as int) =~= listed);
    r
}

fn remove_lines(rules: &mut Option<RuleTable>, target: &RemoveTarget) -> (r: Vec<SystemLine>)
    requires
        rules_wf(table_view(*old(rules))),
    ensures
        rules_wf(table_view(*final(rules))),
        table_view(*final(rules)) == remove_outcome(table_view(*old(rules)), target@).rules,
        line_views(r@) == remove_outcome(table_view(*old(rules)), target@).lines,
{
    match rules {
        None => one_line(text_of("eBPF not loaded")),
        Some(t) => match target {
            RemoveTarget::All => {
                let n = remove_all_rules(t);
                let mut m = text_of("removed all ");
                push_dec(&mut m, n);
                push_str(&mut m, " rule(s)");
                one_line(m)
            },
            RemoveTarget::ById(id) => match remove_rule(t, *id) {
                Ok(()) => {
                    let mut m = text_of("removed rule #");
                    push_dec(&mut m, *id);
                    one_line(m)
                },
                Err(e) => {
                    let mut m = text_of("remove failed: ");
                    push_table_error(&mut m, e);
                    one_line(m)
                },
            },
            RemoveTarget::ByIp(ip) => {
                let a = match parse_ipv4_addr(&chars_of(ip.as_str())) {
                    Some(a) => a,
                    None => {
                        return one_line(
                            text_of("remove failed: invalid ip: invalid IPv4 address syntax"),
                        );
                    },
                };
                match remove_rules_by_ip(t, a) {
                    Ok(n) => {
                        if n == 0 {
                            let mut m = text_of("no rules matching ");
                            push_str(&mut m, ip.as_str());
                            one_line(m)
                        } else {
                            let mut m = text_of("removed ");
                            push_dec(&mut m, n);
                            push_str(&mut m, " rule(s) matching ");
                            push_str(&mut m, ip.as_str());
                            one_line(m)
                        }
                    },
                    Err(e) => {
                        let mut m = text_of("remove failed: ");
                        push_table_error(&mut m, e);
                        one_line(m)
                    },
                }
            },
        },
    }
}

fn rule_lines(rules: &mut Option<RuleTable>, target: &RuleTarget, action: Action, verb: &str) -> (r:
    Vec<SystemLine>)
    requires
        rules_wf(table_view(*old(rules))),
    ensures
        rules_wf(table_view(*final(rules))),
        table_view(*final(rules)) == rule_outcome(table_view(*old(rules)), target@, action, verb@).rules,
        line_views(r@) == rule_outcome(table_view(*old(rules)), target@, action, verb@).lines,
{
    let (spec, desc) = match rule_target_to_spec(target) {
        Ok(v) => v,
        Err(e) => {
            let mut m = text_of(verb);
            push_str(&mut m, " failed: ");
            push_cidr_error(&mut m, e);
            return one_line(m);
        },
    };
    match rules {
        None => one_line(text_of("eBPF not loaded")),
        Some(t) => {
            let res = insert_rule(
                t,
                spec.src_ip,
                spec.src_mask,
                spec.src_port,
                spec.dest_ip,
                spec.dest_mask,
                spec.dest_port,
                spec.protocol.to_protocol(),
                action,
            );
            let mut m = text_of(verb);
            push_str(&mut m, " ");
            push_chars(&mut m, &desc);
            match res {
                Ok(()) => one_line(m),
                Err(e) => {
                    push_str(&mut m, " failed: ");
                    push_table_error(&mut m, e);
                    one_line(m)
                },
            }
        },
    }
}

/// Runs a command against the rule table: whether the replies are to be
/// cleared first, and the reply lines.
pub fn run_command(rules: &mut Option<RuleTable>, cmd: &Command) -> (r: (bool, Vec<SystemLine>))
    requires
        rules_wf(table_view(*old(rules))),
    ensures
        rules_wf(table_view(*final(rules))),
        (Outcome { rules: table_view(*final(rules)), clear: r.0, lines: line_views(r.1@) })
            == spec_execute(table_view(*old(rules)), cmd@),
{
    match cmd {
        Command::Help { topic } => (false, help_lines(topic)),
        Command::Block(target) => (false, rule_lines(rules, target, Action::Drop, "blocked")),
        Command::Allow(target) => (false, rule_lines(rules, target, Action::Allow, "allowed")),
        Command::Rules { ip } => (false, rules_lines(rules, ip)),
        Command::Remove(target) => (false, remove_lines(rules, target)),
        Command::Clear => (true, one_line(text_of("system logs cleared"))),
    }
}

fn render_line(l: &SystemLine, stamp: &Vec<char>) -> (r: String)
    ensures
        r@ == render(stamp@, l@),
{
    if l.stamped {
        let mut out: Vec<char> = Vec::new();
        push_stamped(&mut out, stamp, &l.text);
        string_of(&out)
    } else {
        string_of(&l.text)
    }
}

fn append_lines(logs: &mut Vec<String>, lines: &Vec<SystemLine>, stamp: &Vec<char>)
    ensures
        strings(final(logs)@) == strings(old(logs)@) + line_views(lines@).map_values(
            |l: SysLine| render(stamp@, l),
        ),
{
    let ghost start = strings(logs@);
    let mut i: usize = 0;
    while i < lines.len()
        invariant
            i <= lines.len(),
            strings(logs@) == start + line_views(lines@.take(i as int)).map_values(
                |l: SysLine| render(stamp@, l),
            ),
        decreases lines.len() - i,
    {
        let ghost before = strings(logs@);
        logs.push(render_line(&lines[i], stamp));
        assert(strings(logs@) =~= before.push(render(stamp@, lines@[i as int]@)));
        assert(line_views(lines@.take(i + 1)).map_values(|l: SysLine| render(stamp@, l))
            =~= line_views(lines@.take(i as int)).map_values(|l: SysLine| render(stamp@, l)).push(
            render(stamp@, lines@[i as int]@),
        ));
        i += 1;
    }
    assert(lines@.take(lines.len() as int) =~= lines@);
}

/// Runs a command, with `stamp` as the time of the reply lines.
pub fn execute_at(app: &mut App, cmd: &Command, stamp: &Vec<char>)
    requires
        rules_wf(old(app)@.rules),
    ensures
        rules_wf(final(app)@.rules),
        final(app)@ == apply(old(app)@, spec_execute(old(app)@.rules, cmd@), stamp@),
{
    let (clear, lines) = run_command(&mut app.rules, cmd);
    if clear {
        app.system_logs.clear();
    }
    append_lines(&mut app.system_logs, &lines, stamp);
    assert(app@ =~= apply(old(app)@, spec_execute(old(app)@.rules, cmd@), stamp@));
}

/// Handles a typed line, with `stamp` as the time of the reply lines.
pub fn handle_input_at(app: &mut App, input: &str, stamp: &Vec<char>)
    requires
        rules_wf(old(app)@.rules),
    ensures
        rules_wf(final(app)@.rules),
        final(app)@ == apply(old(app)@, spec_handle_input(old(app)@.rules, input@), stamp@),
{
    let chars = chars_of(input);
    if is_word(&chars, "clear") {
        execute_at(app, &Command::Clear, stamp);
        return;
    }
    match parse_chars(&chars) {
        Ok(cmd) => execute_at(app, &cmd, stamp),
        Err(err) => {
            let mut m: Vec<char> = Vec::new();
            err.push_message(&mut m);
            let lines = one_line(m);
            append_lines(&mut app.system_logs, &lines, stamp);
            assert(app@ =~= apply(old(app)@, spec_handle_input(old(app)@.rules, input@), stamp@));
        },
    }
}

/// Handles a typed line; reply lines carry the current local time.
pub fn handle_input(app: &mut App, input: &str)
    requires
        rules_wf(old(app)@.rules),
    ensures
        rules_wf(final(app)@.rules),
        exists|stamp: Seq<char>|
            is_hms(stamp) && final(app)@ == apply(
                old(app)@,
                spec_handle_input(old(app)@.rules, input@),
                stamp,
            ),
{
    let now = local_time_hms();
    let stamp = chars_of(now.as_str());
    handle_input_at(app, input, &stamp);
}

/// Runs a command; reply lines carry the current local time.
pub fn execute(app: &mut App, cmd: Command)
    requires
        rules_wf(old(app)@.rules),
    ensures
        rules_wf(final(app)@.rules),
        exists|stamp: Seq<char>|
            is_hms(stamp) && final(app)@ == apply(old(app)@, spec_execute(old(app)@.rules, cmd@), stamp),
{
    let now = local_time_hms();
    let stamp = chars_of(now.as_str());
    execute_at(app, &cmd, &stamp);
}

// ---------------------------------------------------------------------------
// Logged packet decisions.
// ---------------------------------------------------------------------------

/// The line that shows a logged decision.
pub open spec fn log_text(ev: LogEvent) -> Seq<char> {
    "ip="@ + ipv4_text(crate::rules::be_u32(ev.src_ip)) + " sport="@ + dec(ev.source_port as nat)
        + " dport="@ + dec(ev.dest_port as nat) + " proto="@ + dec(ev.protocol as nat)
        + " action="@ + dec(ev.action as nat)
}

/// Shows a logged decision: under the allowed packets for action 0, under
/// the denied ones for any other action.
pub fn record_log_event(app: &mut App, ev: &LogEvent)
    ensures
        final(app)@ == (if ev.action == 0 {
            AppModel { allow_logs: old(app)@.allow_logs.push(log_text(*ev)), ..old(app)@ }
        } else {
            AppModel { deny_logs: old(app)@.deny_logs.push(log_text(*ev)), ..old(app)@ }
        }),
{
    let mut m = text_of("ip=");
    push_ipv4(&mut m, crate::rules::ipv4_bytes_to_u32(ev.src_ip));
    push_str(&mut m, " sport=");
    push_dec(&mut m, ev.source_port as u32);
    push_str(&mut m, " dport=");
    push_dec(&mut m, ev.dest_port as u32);
    push_str(&mut m, " proto=");
    push_dec(&mut m, ev.protocol as u32);
    push_str(&mut m, " action=");
    push_dec(&mut m, ev.action as u32);
    assert(m@ =~= log_text(*ev));
    let line = string_of(&m);
    if ev.action == Action::Allow.code() {
        app.allow_logs.push(line);
    } else {
        app.deny_logs.push(line);
    }
    assert(app@ =~= (if ev.action == 0 {
        AppModel { allow_logs: old(app)@.allow_logs.push(log_text(*ev)), ..old(app)@ }
    } else {
        AppModel { deny_logs: old(app)@.deny_logs.push(log_text(*ev)), ..old(app)@ }
    }));
}

/// How far a pane of `area_height` rows (two of them border) scrolls to
/// show the last of `len` lines. The line count is taken modulo 2^16, as a
/// 16-bit pane offset holds it.
pub fn scroll_offset(len: usize, area_height: u16) -> (r: u16)
    ensures
        r as int == if (len % 65536) as int > area_height - 2 && area_height >= 2 {
            (len % 65536) - (area_height - 2)
        } else if area_height < 2 {
            (len % 65536) as int
        } else {
            0
        },
{
    let visible: u16 = if area_height >= 2 {
        area_height - 2
    } else {
        0
    };
    let lines: u16 = (len % 65536) as u16;
    if lines > visible {
        lines - visible
    } else {
        0
    }
}

} // verus!
