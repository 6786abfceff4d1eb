//! The command language of the console: its grammar, the values it yields
//! and the reasons it refuses a line.
use vstd::prelude::*;

pub use crate::app::{execute, handle_input};
use crate::rules::Protocol;
use crate::text::{
    chars_of, dec, find_char, first_index, int_error_text, ipv4_text, is_word, lower, parse_ipv4,
    parse_ipv4_addr, parse_uint, parse_uint_max, push_chars, push_dec, push_int_error, push_ipv4,
    push_str, split_whitespace, split_ws, string_of, sub_chars, to_lower, views, IntErrorKind,
};
use crate::util::{cidr_error_text, parse_cidr_chars, push_cidr_error, spec_parse_cidr, CidrError};

verus! {

/// The protocols a console rule can name.
#[derive(Debug, Clone, Copy, PartialEq, Eq, Structural)]
pub enum BlockProtocol {
    Tcp,
    Udp,
    Any,
}

impl BlockProtocol {
    pub open spec fn spec_protocol(self) -> Protocol {
        match self {
            BlockProtocol::Tcp => Protocol::TCP,
            BlockProtocol::Udp => Protocol::UDP,
            BlockProtocol::Any => Protocol::Any,
        }
    }

    pub open spec fn spec_name(self) -> Seq<char> {
        match self {
            BlockProtocol::Tcp => "tcp"@,
            BlockProtocol::Udp => "udp"@,
            BlockProtocol::Any => "any"@,
        }
    }

    pub fn to_protocol(self) -> (r: Protocol)
        ensures
            r == self.spec_protocol(),
    {
        match self {
            BlockProtocol::Tcp => Protocol::TCP,
            BlockProtocol::Udp => Protocol::UDP,
            BlockProtocol::Any => Protocol::Any,
        }
    }

    pub fn name(self) -> (r: &'static str)
        ensures
            r@ == self.spec_name(),
    {
        match self {
            BlockProtocol::Tcp => "tcp",
            BlockProtocol::Udp => "udp",
            BlockProtocol::Any => "any",
        }
    }
}

/// What a block or allow command applies to.
#[derive(Debug, Clone, PartialEq, Eq)]
pub enum RuleTarget {
    FromIp { ip: String },
    Port { port: u16, protocol: BlockProtocol, src_ip: Option<String> },
}

/// Which rules a remove command deletes.
#[derive(Debug, Clone, PartialEq, Eq)]
pub enum RemoveTarget {
    All,
    ById(u32),
    ByIp(String),
}

/// One console command.
#[derive(Debug, Clone, PartialEq, Eq)]
pub enum Command {
    Help { topic: Option<String> },
    Block(RuleTarget),
    Allow(RuleTarget),
    Rules { ip: Option<String> },
    Remove(RemoveTarget),
    Clear,
}

/// Why a console line is not a command.
#[derive(Debug, Clone, PartialEq, Eq)]
pub enum CommandError {
    Empty,
    UnknownCommand(String),
    HelpUsage,
    RulesUsage,
    RemoveUsage,
    TargetUsage,
    FromUsage,
    PortUsage,
    MissingProtocol,
    MissingIp,
    UnexpectedToken(String),
    InvalidPort(IntErrorKind),
    PortZero,
    InvalidIp,
    InvalidPrefix(IntErrorKind),
    PrefixTooLong(u8),
    InvalidProtocol(String),
}

// ---------------------------------------------------------------------------
// Mathematical models.
// ---------------------------------------------------------------------------

pub enum RuleTargetModel {
    FromIp { ip: Seq<char> },
    Port { port: u16, protocol: BlockProtocol, src_ip: Option<Seq<char>> },
}

pub enum RemoveTargetModel {
    All,
    ById(u32),
    ByIp(Seq<char>),
}

pub enum CommandModel {
    Help { topic: Option<Seq<char>> },
    Block(RuleTargetModel),
    Allow(RuleTargetModel),
    Rules { ip: Option<Seq<char>> },
    Remove(RemoveTargetModel),
    Clear,
}

pub enum CommandErrorModel {
    Empty,
    UnknownCommand(Seq<char>),
    HelpUsage,
    RulesUsage,
    RemoveUsage,
    TargetUsage,
    FromUsage,
    PortUsage,
    MissingProtocol,
    MissingIp,
    UnexpectedToken(Seq<char>),
    InvalidPort(IntErrorKind),
    PortZero,
    InvalidIp,
    InvalidPrefix(IntErrorKind),
    PrefixTooLong(u8),
    InvalidProtocol(Seq<char>),
}

pub open spec fn opt_view(o: Option<String>) -> Option<Seq<char>> {
    match o {
        Some(s) => Some(s@),
        None => None,
    }
}

impl View for RuleTarget {
    type V = RuleTargetModel;

    open spec fn view(&self) -> RuleTargetModel {
        match self {
            RuleTarget::FromIp { ip } => RuleTargetModel::FromIp { ip: ip@ },
            RuleTarget::Port { port, protocol, src_ip } => RuleTargetModel::Port {
                port: *port,
                protocol: *protocol,
                src_ip: opt_view(*src_ip),
            },
        }
    }
}

impl View for RemoveTarget {
    type V = RemoveTargetModel;

    open spec fn view(&self) -> RemoveTargetModel {
        match self {
            RemoveTarget::All => RemoveTargetModel::All,
            RemoveTarget::ById(id) => RemoveTargetModel::ById(*id),
            RemoveTarget::ByIp(ip) => RemoveTargetModel::ByIp(ip@),
        }
    }
}

impl View for Command {
    type V = CommandModel;

    open spec fn view(&self) -> CommandModel {
        match self {
            Command::Help { topic } => CommandModel::Help { topic: opt_view(*topic) },
            Command::Block(t) => CommandModel::Block(t@),
            Command::Allow(t) => CommandModel::Allow(t@),
            Command::Rules { ip } => CommandModel::Rules { ip: opt_view(*ip) },
            Command::Remove(t) => CommandModel::Remove(t@),
            Command::Clear => CommandModel::Clear,
        }
    }
}

impl View for CommandError {
    type V = CommandErrorModel;

    open spec fn view(&self) -> CommandErrorModel {
        match self {
            CommandError::Empty => CommandErrorModel::Empty,
            CommandError::UnknownCommand(s) => CommandErrorModel::UnknownCommand(s@),
            CommandError::HelpUsage => CommandErrorModel::HelpUsage,
            CommandError::RulesUsage => CommandErrorModel::RulesUsage,
            CommandError::RemoveUsage => CommandErrorModel::RemoveUsage,
            CommandError::TargetUsage => CommandErrorModel::TargetUsage,
            CommandError::FromUsage => CommandErrorModel::FromUsage,
            CommandError::PortUsage => CommandErrorModel::PortUsage,
            CommandError::MissingProtocol => CommandErrorModel::MissingProtocol,
            CommandError::MissingIp => CommandErrorModel::MissingIp,
            CommandError::UnexpectedToken(s) => CommandErrorModel::UnexpectedToken(s@),
            CommandError::InvalidPort(k) => CommandErrorModel::InvalidPort(*k),
            CommandError::PortZero => CommandErrorModel::PortZero,
            CommandError::InvalidIp => CommandErrorModel::InvalidIp,
            CommandError::InvalidPrefix(k) => CommandErrorModel::InvalidPrefix(*k),
            CommandError::PrefixTooLong(p) => CommandErrorModel::PrefixTooLong(*p),
            CommandError::InvalidProtocol(s) => CommandErrorModel::InvalidProtocol(s@),
        }
    }
}

/// The model of a result whose value and error both have views.
pub open spec fn result_view<T: View, E: View>(r: Result<T, E>) -> Result<T::V, E::V> {
    match r {
        Ok(v) => Ok(v@),
        Err(e) => Err(e@),
    }
}

pub open spec fn cidr_error_model(e: CidrError) -> CommandErrorModel {
    match e {
        CidrError::InvalidIp => CommandErrorModel::InvalidIp,
        CidrError::InvalidPrefix(k) => CommandErrorModel::InvalidPrefix(k),
        CidrError::PrefixTooLong(p) => CommandErrorModel::PrefixTooLong(p),
    }
}

pub fn cidr_error(e: CidrError) -> (r: CommandError)
    ensures
        r@ == cidr_error_model(e),
{
    match e {
        CidrError::InvalidIp => CommandError::InvalidIp,
        CidrError::InvalidPrefix(k) => CommandError::InvalidPrefix(k),
        CidrError::PrefixTooLong(p) => CommandError::PrefixTooLong(p),
    }
}

// ---------------------------------------------------------------------------
// The grammar.
// ---------------------------------------------------------------------------

pub open spec fn spec_parse_protocol(t: Seq<char>) -> Result<BlockProtocol, CommandErrorModel> {
    let l = lower(t);
    if l == "tcp"@ {
        Ok(BlockProtocol::Tcp)
    } else if l == "udp"@ {
        Ok(BlockProtocol::Udp)
    } else if l == "any"@ {
        Ok(BlockProtocol::Any)
    } else {
        Err(CommandErrorModel::InvalidProtocol(t))
    }
}

/// A port is a decimal number from 1 to 65535.
pub open spec fn spec_parse_port(t: Seq<char>) -> Result<u16, CommandErrorModel> {
    match parse_uint(t, 65535) {
        Err(k) => Err(CommandErrorModel::InvalidPort(k)),
        Ok(v) => if v == 0 {
            Err(CommandErrorModel::PortZero)
        } else {
            Ok(v as u16)
        },
    }
}

/// A bare IPv4 address, given back in its canonical dotted-quad text.
pub open spec fn spec_parse_ip(t: Seq<char>) -> Result<Seq<char>, CommandErrorModel> {
    match parse_ipv4(t) {
        Some(a) => Ok(ipv4_text(a)),
        None => Err(CommandErrorModel::InvalidIp),
    }
}

/// An address or a network: a text with a `/` must be a valid CIDR and is
/// kept as written; any other text must be a bare address.
pub open spec fn spec_parse_ip_or_cidr(t: Seq<char>) -> Result<Seq<char>, CommandErrorModel> {
    if first_index(t, '/') is Some {
        match spec_parse_cidr(t) {
            Ok(_) => Ok(t),
            Err(e) => Err(cidr_error_model(e)),
        }
    } else {
        spec_parse_ip(t)
    }
}

/// `<port>` or `<port>/<proto>`.
pub open spec fn spec_parse_port_token(t: Seq<char>) -> Result<
    (u16, Option<BlockProtocol>),
    CommandErrorModel,
> {
    match first_index(t, '/') {
        Some(k) => match spec_parse_port(t.take(k)) {
            Err(e) => Err(e),
            Ok(port) => match spec_parse_protocol(t.skip(k + 1)) {
                Err(e) => Err(e),
                Ok(p) => Ok((port, Some(p))),
            },
        },
        None => match spec_parse_port(t) {
            Err(e) => Err(e),
            Ok(port) => Ok((port, None)),
        },
    }
}

/// The options after `port <port>`, from `args[i]` on: `proto <proto>` and
/// `from <ip|cidr>`, in any order, a later one overriding an earlier one.
pub open spec fn spec_port_options(
    args: Seq<Seq<char>>,
    i: int,
    protocol: BlockProtocol,
    src_ip: Option<Seq<char>>,
) -> Result<(BlockProtocol, Option<Seq<char>>), CommandErrorModel>
    decreases args.len() - i,
{
    if i < 0 || i >= args.len() {
        Ok((protocol, src_ip))
    } else {
        let w = lower(args[i]);
        if w == "proto"@ {
            if i + 1 >= args.len() {
                Err(CommandErrorModel::MissingProtocol)
            } else {
                match spec_parse_protocol(args[i + 1]) {
                    Err(e) => Err(e),
                    Ok(p) => spec_port_options(args, i + 2, p, src_ip),
                }
            }
        } else if w == "from"@ {
            if i + 1 >= args.len() {
                Err(CommandErrorModel::MissingIp)
            } else {
                match spec_parse_ip_or_cidr(args[i + 1]) {
                    Err(e) => Err(e),
                    Ok(ip) => spec_port_options(args, i + 2, protocol, Some(ip)),
                }
            }
        } else {
            Err(CommandErrorModel::UnexpectedToken(w))
        }
    }
}

/// `port <port>[/<proto>] [proto <proto>] [from <ip|cidr>]`; the protocol
/// defaults to any.
pub open spec fn spec_parse_port_rule(args: Seq<Seq<char>>) -> Result<
    RuleTargetModel,
    CommandErrorModel,
> {
    if args.len() == 0 {
        Err(CommandErrorModel::PortUsage)
    } else {
        match spec_parse_port_token(args[0]) {
            Err(e) => Err(e),
            Ok((port, suffix)) => {
                let protocol = match suffix {
                    Some(p) => p,
                    None => BlockProtocol::Any,
                };
                match spec_port_options(args, 1, protocol, None) {
                    Err(e) => Err(e),
                    Ok((protocol, src_ip)) => Ok(
                        RuleTargetModel::Port { port, protocol, src_ip },
                    ),
                }
            },
        }
    }
}

/// The target of a block or allow command: `from <ip|cidr>`, `port ...`,
/// a lone `<ip|cidr>`, or the older `<proto> <port>`.
pub open spec fn spec_parse_rule_target(args: Seq<Seq<char>>) -> Result<
    RuleTargetModel,
    CommandErrorModel,
> {
    if args.len() == 0 {
        Err(CommandErrorModel::TargetUsage)
    } else {
        let w = lower(args[0]);
        if w == "from"@ {
            if args.len() != 2 {
                Err(CommandErrorModel::FromUsage)
            } else {
                match spec_parse_ip_or_cidr(args[1]) {
                    Err(e) => Err(e),
                    Ok(ip) => Ok(RuleTargetModel::FromIp { ip }),
                }
            }
        } else if w == "port"@ {
            spec_parse_port_rule(args.drop_first())
        } else if args.len() == 1 && spec_parse_ip_or_cidr(args[0]) is Ok {
            Ok(RuleTargetModel::FromIp { ip: args[0] })
        } else if args.len() == 2 {
            match spec_parse_protocol(args[0]) {
                Err(e) => Err(e),
                Ok(protocol) => match spec_parse_port(args[1]) {
                    Err(e) => Err(e),
                    Ok(port) => Ok(RuleTargetModel::Port { port, protocol, src_ip: None }),
                },
            }
        } else {
            Err(CommandErrorModel::TargetUsage)
        }
    }
}

pub open spec fn spec_parse_help(args: Seq<Seq<char>>) -> Result<CommandModel, CommandErrorModel> {
    if args.len() == 0 {
        Ok(CommandModel::Help { topic: None })
    } else if args.len() == 1 {
        Ok(CommandModel::Help { topic: Some(lower(args[0])) })
    } else {
        Err(CommandErrorModel::HelpUsage)
    }
}

pub open spec fn spec_parse_rules_command(args: Seq<Seq<char>>) -> Result<
    CommandModel,
    CommandErrorModel,
> {
    if args.len() == 0 {
        Ok(CommandModel::Rules { ip: None })
    } else if args.len() == 1 {
        match spec_parse_ip(args[0]) {
            Err(e) => Err(e),
            Ok(ip) => Ok(CommandModel::Rules { ip: Some(ip) }),
        }
    } else {
        Err(CommandErrorModel::RulesUsage)
    }
}

pub open spec fn spec_parse_remove_command(args: Seq<Seq<char>>) -> Result<
    CommandModel,
    CommandErrorModel,
> {
    if args.len() != 1 {
        Err(CommandErrorModel::RemoveUsage)
    } else {
        let arg = lower(args[0]);
        if arg == "all"@ {
            Ok(CommandModel::Remove(RemoveTargetModel::All))
        } else if parse_uint(arg, 0xffff_ffff) is Ok {
            Ok(CommandModel::Remove(RemoveTargetModel::ById(parse_uint(arg, 0xffff_ffff)->Ok_0 as u32)))
        } else {
            match spec_parse_ip(args[0]) {
                Err(e) => Err(e),
                Ok(ip) => Ok(CommandModel::Remove(RemoveTargetModel::ByIp(ip))),
            }
        }
    }
}

pub open spec fn spec_parse_rule_command(args: Seq<Seq<char>>, is_block: bool) -> Result<
    CommandModel,
    CommandErrorModel,
> {
    match spec_parse_rule_target(args) {
        Err(e) => Err(e),
        Ok(t) => if is_block {
            Ok(CommandModel::Block(t))
        } else {
            Ok(CommandModel::Allow(t))
        },
    }
}

/// A console line: whitespace-separated words, the first naming the command
/// (in any letter case).
pub open spec fn spec_parse(input: Seq<char>) -> Result<CommandModel, CommandErrorModel> {
    let toks = split_ws(input);
    if toks.len() == 0 {
        Err(CommandErrorModel::Empty)
    } else {
        let head = lower(toks[0]);
        let args = toks.drop_first();
        if head == "help"@ || head == "?"@ {
            spec_parse_help(args)
        } else if head == "block"@ || head == "deny"@ {
            spec_parse_rule_command(args, true)
        } else if head == "allow"@ {
            spec_parse_rule_command(args, false)
        } else if head == "rules"@ || head == "list"@ {
            spec_parse_rules_command(args)
        } else if head == "remove"@ || head == "rm"@ || head == "del"@ || head == "delete"@ {
            spec_parse_remove_command(args)
        } else {
            Err(CommandErrorModel::UnknownCommand(toks[0]))
        }
    }
}

// ---------------------------------------------------------------------------
// The parser.
// ---------------------------------------------------------------------------

/// The arguments from word `start` on.
pub open spec fn args_from(toks: Seq<Vec<char>>, start: int) -> Seq<Seq<char>> {
    views(toks).skip(start)
}

fn parse_protocol(t: &Vec<char>) -> (r: Result<BlockProtocol, CommandError>)
    ensures
        match r {
            Ok(p) => spec_parse_protocol(t@) == Ok::<BlockProtocol, CommandErrorModel>(p),
            Err(e) => spec_parse_protocol(t@) == Err::<BlockProtocol, CommandErrorModel>(e@),
        },
{
    let l = to_lower(t);
    if is_word(&l, "tcp") {
        Ok(BlockProtocol::Tcp)
    } else if is_word(&l, "udp") {
        Ok(BlockProtocol::Udp)
    } else if is_word(&l, "any") {
        Ok(BlockProtocol::Any)
    } else {
        Err(CommandError::InvalidProtocol(string_of(t)))
    }
}

fn parse_port(t: &Vec<char>) -> (r: Result<u16, CommandError>)
    ensures
        match r {
            Ok(p) => spec_parse_port(t@) == Ok::<u16, CommandErrorModel>(p),
            Err(e) => spec_parse_port(t@) == Err::<u16, CommandErrorModel>(e@),
        },
{
    match parse_uint_max(t, 65535) {
        Err(k) => Err(CommandError::InvalidPort(k)),
        Ok(v) => if v == 0 {
            Err(CommandError::PortZero)
        } else {
            Ok(v as u16)
        },
    }
}

fn parse_ip(t: &Vec<char>) -> (r: Result<String, CommandError>)
    ensures
        result_view(r) == spec_parse_ip(t@),
{
    match parse_ipv4_addr(t) {
        Some(a) => {
            let mut text: Vec<char> = Vec::new();
            push_ipv4(&mut text, a);
            assert(text@ =~= ipv4_text(a));
            Ok(string_of(&text))
        },
        None => Err(CommandError::InvalidIp),
    }
}

fn parse_ip_or_cidr(t: &Vec<char>) -> (r: Result<String, CommandError>)
    ensures
        result_view(r) == spec_parse_ip_or_cidr(t@),
{
    match find_char(t, '/') {
        Some(_) => match parse_cidr_chars(t) {
            Ok(_) => Ok(string_of(t)),
            Err(e) => Err(cidr_error(e)),
        },
        None => parse_ip(t),
    }
}

fn parse_port_token(t: &Vec<char>) -> (r: Result<(u16, Option<BlockProtocol>), CommandError>)
    ensures
        match r {
            Ok(v) => spec_parse_port_token(t@) == Ok::<
                (u16, Option<BlockProtocol>),
                CommandErrorModel,
            >(v),
            Err(e) => spec_parse_port_token(t@) == Err::<
                (u16, Option<BlockProtocol>),
                CommandErrorModel,
            >(e@),
        },
{
    match find_char(t, '/') {
        Some(k) => {
            let port_part = sub_chars(t, 0, k);
            let proto_part = sub_chars(t, k + 1, t.len());
            assert(port_part@ =~= t@.take(k as int));
            assert(proto_part@ =~= t@.skip(k + 1));
            let port = parse_port(&port_part)?;
            let protocol = parse_protocol(&proto_part)?;
            Ok((port, Some(protocol)))
        },
        None => {
            let port = parse_port(t)?;
            Ok((port, None))
        },
    }
}

/// One option of a port rule, at word `i`: the index after it and the
/// updated protocol and source.
fn port_option_step(
    toks: &Vec<Vec<char>>,
    start: usize,
    i: usize,
    protocol: BlockProtocol,
    src_ip: Option<String>,
) -> (r: Result<(usize, BlockProtocol, Option<String>), CommandError>)
    requires
        start < i < toks.len(),
    ensures
        match r {
            Ok((ni, np, ns)) => i < ni <= toks.len() && spec_port_options(
                args_from(toks@, start as int),
                i - start,
                protocol,
                opt_view(src_ip),
            ) == spec_port_options(args_from(toks@, start as int), ni - start, np, opt_view(ns)),
            Err(e) => spec_port_options(
                args_from(toks@, start as int),
                i - start,
                protocol,
                opt_view(src_ip),
            ) == Err::<(BlockProtocol, Option<Seq<char>>), CommandErrorModel>(e@),
        },
{
    let ghost args = args_from(toks@, start as int);
    let ghost k = i - start;
    assert(args[k] == toks@[i as int]@);
    let w = to_lower(&toks[i]);
    if is_word(&w, "proto") {
        if i + 1 >= toks.len() {
            return Err(CommandError::MissingProtocol);
        }
        assert(args[k + 1] == toks@[i + 1]@);
        let p = parse_protocol(&toks[i + 1])?;
        Ok((i + 2, p, src_ip))
    } else if is_word(&w, "from") {
        if i + 1 >= toks.len() {
            return Err(CommandError::MissingIp);
        }
        assert(args[k + 1] == toks@[i + 1]@);
        let ip = parse_ip_or_cidr(&toks[i + 1])?;
        Ok((i + 2, protocol, Some(ip)))
    } else {
        Err(CommandError::UnexpectedToken(string_of(&w)))
    }
}

/// The options of a port rule, from the word after the port on.
fn parse_port_options(toks: &Vec<Vec<char>>, start: usize, protocol: BlockProtocol) -> (r: Result<
    (BlockProtocol, Option<String>),
    CommandError,
>)
    requires
        start < toks.len(),
    ensures
        match r {
            Ok((p, s)) => spec_port_options(args_from(toks@, start as int), 1, protocol, None)
                == Ok::<(BlockProtocol, Option<Seq<char>>), CommandErrorModel>((p, opt_view(s))),
            Err(e) => spec_port_options(args_from(toks@, start as int), 1, protocol, None) == Err::<
                (BlockProtocol, Option<Seq<char>>),
                CommandErrorModel,
            >(e@),
        },
{
    let ghost args = args_from(toks@, start as int);
    let mut protocol_now = protocol;
    let mut src_ip: Option<String> = None;
    let mut i: usize = start + 1;
    while i < toks.len()
        invariant
            start < i <= toks.len(),
            args == args_from(toks@, start as int),
            spec_port_options(args, 1, protocol, None) == spec_port_options(
                args,
                i - start,
                protocol_now,
                opt_view(src_ip),
            ),
        decreases toks.len() - i,
    {
        match port_option_step(toks, start, i, protocol_now, src_ip) {
            Ok((ni, np, ns)) => {
                i = ni;
                protocol_now = np;
                src_ip = ns;
            },
            Err(e) => {
                return Err(e);
            },
        }
    }
    assert(args.len() == toks.len() - start);
    Ok((protocol_now, src_ip))
}

fn parse_port_rule(toks: &Vec<Vec<char>>, start: usize) -> (r: Result<RuleTarget, CommandError>)
    requires
        start <= toks.len(),
    ensures
        result_view(r) == spec_parse_port_rule(args_from(toks@, start as int)),
{
    let ghost args = args_from(toks@, start as int);
    if start >= toks.len() {
        return Err(CommandError::PortUsage);
    }
    assert(args[0] == toks@[start as int]@);
    let (port, protocol_from_suffix) = parse_port_token(&toks[start])?;
    let protocol = match protocol_from_suffix {
        Some(p) => p,
        None => BlockProtocol::Any,
    };
    let (protocol, src_ip) = parse_port_options(toks, start, protocol)?;
    Ok(RuleTarget::Port { port, protocol, src_ip })
}

fn parse_rule_target(toks: &Vec<Vec<char>>, start: usize) -> (r: Result<RuleTarget, CommandError>)
    requires
        start <= toks.len(),
    ensures
        result_view(r) == spec_parse_rule_target(args_from(toks@, start as int)),
{
    let ghost args = args_from(toks@, start as int);
    let n = toks.len() - start;
    if n == 0 {
        return Err(CommandError::TargetUsage);
    }
    assert(args[0] == toks@[start as int]@);
    let w = to_lower(&toks[start]);
    if is_word(&w, "from") {
        if n != 2 {
            return Err(CommandError::FromUsage);
        }
        assert(args[1] == toks@[start + 1]@);
        let ip = parse_ip_or_cidr(&toks[start + 1])?;
        Ok(RuleTarget::FromIp { ip })
    } else if is_word(&w, "port") {
        assert(args.drop_first() =~= args_from(toks@, start + 1));
        parse_port_rule(toks, start + 1)
    } else {
        if n == 1 {
            if parse_ip_or_cidr(&toks[start]).is_ok() {
                return Ok(RuleTarget::FromIp { ip: string_of(&toks[start]) });
            }
        }
        if n == 2 {
            assert(args[1] == toks@[start + 1]@);
            let protocol = parse_protocol(&toks[start])?;
            let port = parse_port(&toks[start + 1])?;
            return Ok(RuleTarget::Port { port, protocol, src_ip: None });
        }
        Err(CommandError::TargetUsage)
    }
}

fn parse_help(toks: &Vec<Vec<char>>) -> (r: Result<Command, CommandError>)
    requires
        toks.len() >= 1,
    ensures
        result_view(r) == spec_parse_help(args_from(toks@, 1)),
{
    let ghost args = args_from(toks@, 1);
    if toks.len() == 1 {
        return Ok(Command::Help { topic: None });
    }
    if toks.len() == 2 {
        assert(args[0] == toks@[1]@);
        let topic = to_lower(&toks[1]);
        return Ok(Command::Help { topic: Some(string_of(&topic)) });
    }
    Err(CommandError::HelpUsage)
}

fn parse_rules_command(toks: &Vec<Vec<char>>) -> (r: Result<Command, CommandError>)
    requires
        toks.len() >= 1,
    ensures
        result_view(r) == spec_parse_rules_command(args_from(toks@, 1)),
{
    let ghost args = args_from(toks@, 1);
    if toks.len() == 1 {
        return Ok(Command::Rules { ip: None });
    }
    if toks.len() == 2 {
        assert(args[0] == toks@[1]@);
        let ip = parse_ip(&toks[1])?;
        return Ok(Command::Rules { ip: Some(ip) });
    }
    Err(CommandError::RulesUsage)
}

fn parse_remove_command(toks: &Vec<Vec<char>>) -> (r: Result<Command, CommandError>)
    requires
        toks.len() >= 1,
    ensures
        result_view(r) == spec_parse_remove_command(args_from(toks@, 1)),
{
    let ghost args = args_from(toks@, 1);
    if toks.len() != 2 {
        return Err(CommandError::RemoveUsage);
    }
    assert(args[0] == toks@[1]@);
    let arg = to_lower(&toks[1]);
    if is_word(&arg, "all") {
        return Ok(Command::Remove(RemoveTarget::All));
    }
    if let Ok(id) = parse_uint_max(&arg, 0xffff_ffff) {
        return Ok(Command::Remove(RemoveTarget::ById(id)));
    }
    let ip = parse_ip(&toks[1])?;
    Ok(Command::Remove(RemoveTarget::ByIp(ip)))
}

fn parse_rule_command(toks: &Vec<Vec<char>>, is_block: bool) -> (r: Result<Command, CommandError>)
    requires
        toks.len() >= 1,
    ensures
        result_view(r) == spec_parse_rule_command(args_from(toks@, 1), is_block),
{
    let target = parse_rule_target(toks, 1)?;
    Ok(
        if is_block {
            Command::Block(target)
        } else {
            Command::Allow(target)
        },
    )
}

/// Parses one console line.
pub fn parse_chars(input: &Vec<char>) -> (r: Result<Command, CommandError>)
    ensures
        result_view(r) == spec_parse(input@),
{
    let toks = split_whitespace(input);
    if toks.len() == 0 {
        return Err(CommandError::Empty);
    }
    let ghost tv = views(toks@);
    assert(tv[0] == toks@[0]@);
    assert(tv.drop_first() =~= args_from(toks@, 1));
    let head = to_lower(&toks[0]);
    if is_word(&head, "help") || is_word(&head, "?") {
        parse_help(&toks)
    } else if is_word(&head, "block") || is_word(&head, "deny") {
        parse_rule_command(&toks, true)
    } else if is_word(&head, "allow") {
        parse_rule_command(&toks, false)
    } else if is_word(&head, "rules") || is_word(&head, "list") {
        parse_rules_command(&toks)
    } else if is_word(&head, "remove") || is_word(&head, "rm") || is_word(&head, "del") || is_word(
        &head,
        "delete",
    ) {
        parse_remove_command(&toks)
    } else {
        Err(CommandError::UnknownCommand(string_of(&toks[0])))
    }
}

/// Parses one console line.
pub fn parse(input: &str) -> (r: Result<Command, CommandError>)
    ensures
        result_view(r) == spec_parse(input@),
{
    let v = chars_of(input);
    parse_chars(&v)
}

// ---------------------------------------------------------------------------
// Messages.
// ---------------------------------------------------------------------------

/// The message of a refused line, as the console shows it.
pub open spec fn error_text(e: CommandErrorModel) -> Seq<char> {
    match e {
        CommandErrorModel::Empty => "empty command (try 'help')"@,
        CommandErrorModel::UnknownCommand(t) => "unknown command: "@ + t + " (try 'help')"@,
        CommandErrorModel::HelpUsage => "usage: help [block|allow]"@,
        CommandErrorModel::RulesUsage => "usage: rules [ip]"@,
        CommandErrorModel::RemoveUsage => "usage: remove <all | #id | ip>"@,
        CommandErrorModel::TargetUsage => "usage: ... (try 'help block')"@,
        CommandErrorModel::FromUsage => "usage: from <ip|cidr>"@,
        CommandErrorModel::PortUsage => "usage: port <port> [proto <tcp|udp|any>] [from <ip>]"@,
        CommandErrorModel::MissingProtocol => "missing protocol after 'proto'"@,
        CommandErrorModel::MissingIp => "missing ip after 'from'"@,
        CommandErrorModel::UnexpectedToken(t) => "unexpected token: "@ + t,
        CommandErrorModel::InvalidPort(k) => "invalid port: "@ + int_error_text(k),
        CommandErrorModel::PortZero => "port must be 1-65535"@,
        CommandErrorModel::InvalidIp => cidr_error_text(CidrError::InvalidIp),
        CommandErrorModel::InvalidPrefix(k) => cidr_error_text(CidrError::InvalidPrefix(k)),
        CommandErrorModel::PrefixTooLong(p) => cidr_error_text(CidrError::PrefixTooLong(p)),
        CommandErrorModel::InvalidProtocol(t) => "invalid protocol: "@ + t
            + " (expected tcp, udp, or any)"@,
    }
}

impl CommandError {
    /// Appends the message of the error to `out`.
    pub fn push_message(&self, out: &mut Vec<char>)
        ensures
            final(out)@ == old(out)@ + error_text(self@),
    {
        match self {
            CommandError::Empty => push_str(out, "empty command (try 'help')"),
            CommandError::UnknownCommand(t) => {
                push_str(out, "unknown command: ");
                push_str(out, t.as_str());
                push_str(out, " (try 'help')");
            },
            CommandError::HelpUsage => push_str(out, "usage: help [block|allow]"),
            CommandError::RulesUsage => push_str(out, "usage: rules [ip]"),
            CommandError::RemoveUsage => push_str(out, "usage: remove <all | #id | ip>"),
            CommandError::TargetUsage => push_str(out, "usage: ... (try 'help block')"),
            CommandError::FromUsage => push_str(out, "usage: from <ip|cidr>"),
            CommandError::PortUsage => push_str(
                out,
                "usage: port <port> [proto <tcp|udp|any>] [from <ip>]",
            ),
            CommandError::MissingProtocol => push_str(out, "missing protocol after 'proto'"),
            CommandError::MissingIp => push_str(out, "missing ip after 'from'"),
            CommandError::UnexpectedToken(t) => {
                push_str(out, "unexpected token: ");
                push_str(out, t.as_str());
            },
            CommandError::InvalidPort(k) => {
                push_str(out, "invalid port: ");
                push_int_error(out, *k);
            },
            CommandError::PortZero => push_str(out, "port must be 1-65535"),
            CommandError::InvalidIp => push_cidr_error(out, CidrError::InvalidIp),
            CommandError::InvalidPrefix(k) => push_cidr_error(out, CidrError::InvalidPrefix(*k)),
            CommandError::PrefixTooLong(p) => push_cidr_error(out, CidrError::PrefixTooLong(*p)),
            CommandError::InvalidProtocol(t) => {
                push_str(out, "invalid protocol: ");
                push_str(out, t.as_str());
                push_str(out, " (expected tcp, udp, or any)");
            },
        }
        assert(final(out)@ =~= old(out)@ + error_text(self@));
    }

    /// The message of the error.
    pub fn message(&self) -> (r: String)
        ensures
            r@ == error_text(self@),
    {
        let mut v: Vec<char> = Vec::new();
        self.push_message(&mut v);
        assert(v@ =~= error_text(self@));
        string_of(&v)
    }
}

// ---------------------------------------------------------------------------
// From a target to the fields of a rule.
// ---------------------------------------------------------------------------

/// The fields of the rule that a block or allow command installs.
#[derive(Clone, Copy, Debug, PartialEq, Eq, Structural)]
pub struct RuleSpec {
    pub src_ip: u32,
    pub src_mask: u32,
    pub src_port: u16,
    pub dest_ip: u32,
    pub dest_mask: u32,
    pub dest_port: u16,
    pub protocol: BlockProtocol,
}

/// The rule fields of a target, and the words that describe it: a source
/// network for `from`, a destination port (and optional source network) for
/// `port`.
pub open spec fn spec_rule_target_to_spec(t: RuleTargetModel) -> Result<(RuleSpec, Seq<char>), CidrError> {
    match t {
        RuleTargetModel::FromIp { ip } => match spec_parse_cidr(ip) {
            Err(e) => Err(e),
            Ok((addr, mask)) => Ok(
                (
                    RuleSpec {
                        src_ip: addr,
                        src_mask: mask,
                        src_port: 0,
                        dest_ip: 0,
                        dest_mask: 0,
                        dest_port: 0,
                        protocol: BlockProtocol::Any,
                    },
                    "from "@ + ip,
                ),
            ),
        },
        RuleTargetModel::Port { port, protocol, src_ip } => {
            let src = match src_ip {
                Some(s) => spec_parse_cidr(s),
                None => Ok((0u32, 0u32)),
            };
            match src {
                Err(e) => Err(e),
                Ok((src_addr, src_mask)) => {
                    let desc = match src_ip {
                        Some(s) => protocol.spec_name() + " port "@ + dec(port as nat) + " from "@
                            + s,
                        None => protocol.spec_name() + " port "@ + dec(port as nat),
                    };
                    Ok(
                        (
                            RuleSpec {
                                src_ip: src_addr,
                                src_mask,
                                src_port: 0,
                                dest_ip: 0,
                                dest_mask: 0,
                                dest_port: port,
                                protocol,
                            },
                            desc,
                        ),
                    )
                },
            }
        },
    }
}

pub fn rule_target_to_spec(target: &RuleTarget) -> (r: Result<(RuleSpec, Vec<char>), CidrError>)
    ensures
        match r {
            Ok((spec, desc)) => spec_rule_target_to_spec(target@) == Ok::<
                (RuleSpec, Seq<char>),
                CidrError,
            >((spec, desc@)),
            Err(e) => spec_rule_target_to_spec(target@) == Err::<(RuleSpec, Seq<char>), CidrError>(
                e,
            ),
        },
{
    match target {
        RuleTarget::FromIp { ip } => {
            let ipv = chars_of(ip.as_str());
            let (addr, mask) = parse_cidr_chars(&ipv)?;
            let mut desc: Vec<char> = Vec::new();
            push_str(&mut desc, "from ");
            push_chars(&mut desc, &ipv);
            Ok(
                (
                    RuleSpec {
                        src_ip: addr,
                        src_mask: mask,
                        src_port: 0,
                        dest_ip: 0,
                        dest_mask: 0,
                        dest_port: 0,
                        protocol: BlockProtocol::Any,
                    },
                    desc,
                ),
            )
        },
        RuleTarget::Port { port, protocol, src_ip } => {
            let (src_addr, src_mask) = match src_ip {
                Some(s) => parse_cidr_chars(&chars_of(s.as_str()))?,
                None => (0, 0),
            };
            let mut desc: Vec<char> = Vec::new();
            push_str(&mut desc, protocol.name());
            push_str(&mut desc, " port ");
            push_dec(&mut desc, *port as u32);
            match src_ip {
                Some(s) => {
                    push_str(&mut desc, " from ");
                    push_str(&mut desc, s.as_str());
                },
                None => {},
            }
            assert(desc@ =~= match opt_view(*src_ip) {
                Some(s) => protocol.spec_name() + " port "@ + dec(*port as nat) + " from "@ + s,
                None => protocol.spec_name() + " port "@ + dec(*port as nat),
            });
            Ok(
                (
                    RuleSpec {
                        src_ip: src_addr,
                        src_mask,
                        src_port: 0,
                        dest_ip: 0,
                        dest_mask: 0,
                        dest_port: *port,
                        protocol: *protocol,
                    },
                    desc,
                ),
            )
        },
    }
}

// ---------------------------------------------------------------------------
// Help.
// ---------------------------------------------------------------------------

pub open spec fn texts(v: Seq<&'static str>) -> Seq<Seq<char>> {
    v.map_values(|s: &'static str| s@)
}

pub open spec fn spec_help_general() -> Seq<Seq<char>> {
    seq![
        "commands:"@,
        "  help [topic]     show help (topics: block, allow)"@,
        "  block ...        drop matching traffic (alias: deny)"@,
        "  allow ...        permit matching traffic"@,
        "  rules [ip]       list active rules (optionally filter by ip)"@,
        "  remove ...       remove rules (all, by #id, or by ip)"@,
        "  clear            clear system logs"@,
        "  esc              exit the program"@,
        "examples:"@,
        "  block 1.2.3.4"@,
        "  block from 1.2.3.4"@,
        "  block port 80"@,
        "  block port 80/tcp"@,
        "  block port 443 proto tcp from 10.0.0.5"@,
        "  block tcp 80"@,
        "  allow from 192.168.1.10"@,
        "  rules"@,
        "  rules 1.2.3.4"@,
        "  remove all"@,
        "  remove 0"@,
        "  remove 1.2.3.4"@,
    ]
}

/// The general help text, one line per entry.
pub fn help_general() -> (r: Vec<&'static str>)
    ensures
        texts(r@) == spec_help_general(),
{
    let r = vec![
        "commands:",
        "  help [topic]     show help (topics: block, allow)",
        "  block ...        drop matching traffic (alias: deny)",
        "  allow ...        permit matching traffic",
        "  rules [ip]       list active rules (optionally filter by ip)",
        "  remove ...       remove rules (all, by #id, or by ip)",
        "  clear            clear system logs",
        "  esc              exit the program",
        "examples:",
        "  block 1.2.3.4",
        "  block from 1.2.3.4",
        "  block port 80",
        "  block port 80/tcp",
        "  block port 443 proto tcp from 10.0.0.5",
        "  block tcp 80",
        "  allow from 192.168.1.10",
        "  rules",
        "  rules 1.2.3.4",
        "  remove all",
        "  remove 0",
        "  remove 1.2.3.4",
    ];
    assert(texts(r@) =~= spec_help_general());
    r
}

pub open spec fn spec_help_block() -> Seq<Seq<char>> {
    seq![
        "block \u{2014} drop matching traffic (alias: deny)"@,
        "  block <ip|cidr>"@,
        "  block from <ip|cidr>"@,
        "  block port <port>"@,
        "  block port <port>/<proto>"@,
        "  block port <port> proto <tcp|udp|any>"@,
        "  block port <port> from <ip|cidr>"@,
        "  block port <port> proto <proto> from <ip|cidr>"@,
        "  block <tcp|udp|any> <port>          (legacy)"@,
        "protocols: tcp, udp, any"@,
        "cidr examples: 10.0.0.0/8, 192.168.1.0/24"@,
    ]
}

/// The help text of the block command.
pub fn help_block() -> (r: Vec<&'static str>)
    ensures
        texts(r@) == spec_help_block(),
{
    let r = vec![
        "block \u{2014} drop matching traffic (alias: deny)",
        "  block <ip|cidr>",
        "  block from <ip|cidr>",
        "  block port <port>",
        "  block port <port>/<proto>",
        "  block port <port> proto <tcp|udp|any>",
        "  block port <port> from <ip|cidr>",
        "  block port <port> proto <proto> from <ip|cidr>",
        "  block <tcp|udp|any> <port>          (legacy)",
        "protocols: tcp, udp, any",
        "cidr examples: 10.0.0.0/8, 192.168.1.0/24",
    ];
    assert(texts(r@) =~= spec_help_block());
    r
}

pub open spec fn spec_help_allow() -> Seq<Seq<char>> {
    seq![
        "allow \u{2014} permit matching traffic"@,
        "  allow <ip|cidr>"@,
        "  allow from <ip|cidr>"@,
        "  allow port <port>"@,
        "  allow port <port>/<proto>"@,
        "  allow port <port> proto <tcp|udp|any>"@,
        "  allow port <port> from <ip|cidr>"@,
        "  allow port <port> proto <proto> from <ip|cidr>"@,
        "  allow <tcp|udp|any> <port>          (legacy)"@,
    ]
}

/// The help text of the allow command.
pub fn help_allow() -> (r: Vec<&'static str>)
    ensures
        texts(r@) == spec_help_allow(),
{
    let r = vec![
        "allow \u{2014} permit matching traffic",
        "  allow <ip|cidr>",
        "  allow from <ip|cidr>",
        "  allow port <port>",
        "  allow port <port>/<proto>",
        "  allow port <port> proto <tcp|udp|any>",
        "  allow port <port> from <ip|cidr>",
        "  allow port <port> proto <proto> from <ip|cidr>",
        "  allow <tcp|udp|any> <port>          (legacy)",
    ];
    assert(texts(r@) =~= spec_help_allow());
    r
}

/// An address that the console accepts is echoed as typed: the text of the
/// parsed address is the text that was parsed.
pub proof fn lemma_parse_ip_echoes(t: Seq<char>)
    requires
        spec_parse_ip(t) is Ok,
    ensures
        spec_parse_ip(t) == Ok::<Seq<char>, CommandErrorModel>(t),
{
    crate::text::lemma_ipv4_text_of_parse(t);
}

/// Block and allow read the same targets: for the same words, `block` gives
/// `Block(t)` exactly when `allow` gives `Allow(t)`, and the two fail
/// together, with the same error. Nothing else is ever returned.
pub proof fn lemma_block_allow_alike(args: Seq<Seq<char>>)
    ensures
        match (spec_parse_rule_command(args, true), spec_parse_rule_command(args, false)) {
            (Ok(CommandModel::Block(t1)), Ok(CommandModel::Allow(t2))) => t1 == t2,
            (Err(e1), Err(e2)) => e1 == e2,
            _ => false,
        },
{
}

/// Reading the digits of `n` gives `n` when it is at most `max`, and
/// overflow otherwise.
proof fn lemma_scan_dec(n: nat, max: nat)
    ensures
        crate::text::scan_digits(dec(n), max) == (if n <= max {
            Ok::<nat, IntErrorKind>(n)
        } else {
            Err::<nat, IntErrorKind>(IntErrorKind::PosOverflow)
        }),
    decreases n,
{
    let d = dec(n);
    let c = crate::text::digit_char(n % 10);
    assert(crate::text::is_digit(c) && crate::text::digit_val(c) == n % 10);
    if n < 10 {
        assert(d == seq![c]);
        assert(d.drop_last() =~= Seq::<char>::empty());
        assert(crate::text::scan_digits(d.drop_last(), max) == Ok::<nat, IntErrorKind>(0));
    } else {
        lemma_scan_dec(n / 10, max);
        assert(d == dec(n / 10).push(c));
        assert(d.drop_last() =~= dec(n / 10));
        assert(d.last() == c);
        assert((n / 10) * 10 + n % 10 == n);
        if n / 10 > max {
            assert(n > max);
        }
    }
}

/// Every number from 1 to 65535, written in decimal, is read as that port;
/// 0 is refused as no port, and a number above 65535 as too large.
pub proof fn lemma_port_numbers(n: nat)
    ensures
        1 <= n <= 65535 ==> spec_parse_port(dec(n)) == Ok::<u16, CommandErrorModel>(n as u16),
        n == 0 ==> spec_parse_port(dec(n)) == Err::<u16, CommandErrorModel>(
            CommandErrorModel::PortZero,
        ),
        n > 65535 ==> spec_parse_port(dec(n)) == Err::<u16, CommandErrorModel>(
            CommandErrorModel::InvalidPort(IntErrorKind::PosOverflow),
        ),
{
    lemma_scan_dec(n, 65535);
    crate::text::lemma_dec(n, 65535);
    assert(dec(n)[0] != '+');
    assert(dec(n) != seq!['-']) by {
        if dec(n) == seq!['-'] {
            assert(crate::text::is_digit(dec(n)[0]));
        }
    }
}

/// The protocol words, in any letter case: "tcp" names protocol 6, "udp"
/// protocol 17, "any" every protocol (255); every other word is refused.
pub proof fn lemma_protocol_words(t: Seq<char>)
    ensures
        (spec_parse_protocol(t) is Ok) == (lower(t) == "tcp"@ || lower(t) == "udp"@ || lower(t)
            == "any"@),
        lower(t) == "tcp"@ ==> spec_parse_protocol(t)->Ok_0.spec_protocol().spec_number() == 6,
        lower(t) == "udp"@ ==> spec_parse_protocol(t)->Ok_0.spec_protocol().spec_number() == 17,
        lower(t) == "any"@ ==> spec_parse_protocol(t)->Ok_0.spec_protocol().spec_number() == 255,
{
    reveal_strlit("tcp");
    reveal_strlit("udp");
    reveal_strlit("any");
    assert("tcp"@[0] != "udp"@[0] && "tcp"@[0] != "any"@[0] && "udp"@[0] != "any"@[0]);
}

} // verus!
