//! Addresses with prefixes, and the text of rules as the rule listing shows them.
use vstd::prelude::*;

pub use crate::table::{
    insert_rule, list_rules, remove_all_rules, remove_rule, remove_rules_by_ip, RuleTable,
};

use crate::rules::{bit, is_prefix_mask, prefix_mask, prefix_to_mask, Rule};
use crate::text::{
    chars_of, dec, digit_val, find_char, first_index, int_error_text, ipv4_text, is_digit,
    parse_ipv4, parse_ipv4_addr, parse_uint, parse_uint_max, push_dec, push_int_error, push_ipv4,
    push_str, string_of, sub_chars, IntErrorKind,
};

verus! {

/// Why a text is not an address or a network in CIDR form.
#[derive(Clone, Copy, Debug, PartialEq, Eq, Structural)]
pub enum CidrError {
    /// The address part is not a dotted quad.
    InvalidIp,
    /// The prefix length is not an unsigned 8-bit number.
    InvalidPrefix(IntErrorKind),
    /// The prefix length is greater than 32.
    PrefixTooLong(u8),
}

/// The message of a CIDR error, with the context the console adds.
pub open spec fn cidr_error_text(e: CidrError) -> Seq<char> {
    match e {
        CidrError::InvalidIp => "invalid ipv4 address: invalid IPv4 address syntax"@,
        CidrError::InvalidPrefix(k) => "invalid prefix length: "@ + int_error_text(k),
        CidrError::PrefixTooLong(p) => "prefix length must be 0-32, got "@ + dec(p as nat),
    }
}

pub fn push_cidr_error(out: &mut Vec<char>, e: CidrError)
    ensures
        final(out)@ == old(out)@ + cidr_error_text(e),
{
    match e {
        CidrError::InvalidIp => push_str(out, "invalid ipv4 address: invalid IPv4 address syntax"),
        CidrError::InvalidPrefix(k) => {
            push_str(out, "invalid prefix length: ");
            push_int_error(out, k);
            assert(final(out)@ =~= old(out)@ + cidr_error_text(e));
        },
        CidrError::PrefixTooLong(p) => {
            push_str(out, "prefix length must be 0-32, got ");
            push_dec(out, p as u32);
            assert(final(out)@ =~= old(out)@ + cidr_error_text(e));
        },
    }
}

/// "a.b.c.d" or "a.b.c.d/p" as a (network address, netmask) pair. A bare
/// address is a host (mask of all ones), except 0.0.0.0 which stands for
/// any address (mask 0). With a prefix, the host bits of the address are
/// cleared.
pub open spec fn spec_parse_cidr(s: Seq<char>) -> Result<(u32, u32), CidrError> {
    match first_index(s, '/') {
        Some(k) => match parse_ipv4(s.take(k)) {
            None => Err(CidrError::InvalidIp),
            Some(a) => match parse_uint(s.skip(k + 1), 255) {
                Err(e) => Err(CidrError::InvalidPrefix(e)),
                Ok(p) => if p > 32 {
                    Err(CidrError::PrefixTooLong(p as u8))
                } else {
                    Ok((a & prefix_mask(p), prefix_mask(p)))
                },
            },
        },
        None => match parse_ipv4(s) {
            None => Err(CidrError::InvalidIp),
            Some(a) => Ok(
                (
                    a,
                    if a == 0 {
                        0
                    } else {
                        0xffff_ffffu32
                    },
                ),
            ),
        },
    }
}

/// Parse "1.2.3.4" or "1.2.3.0/24" into (network_addr, mask).
pub fn parse_cidr_chars(s: &Vec<char>) -> (r: Result<(u32, u32), CidrError>)
    ensures
        r == spec_parse_cidr(s@),
{
    match find_char(s, '/') {
        Some(k) => {
            let ip_part = sub_chars(s, 0, k);
            let prefix_part = sub_chars(s, k + 1, s.len());
            assert(ip_part@ =~= s@.take(k as int));
            assert(prefix_part@ =~= s@.skip(k + 1));
            let ip = match parse_ipv4_addr(&ip_part) {
                Some(a) => a,
                None => return Err(CidrError::InvalidIp),
            };
            let prefix = match parse_uint_max(&prefix_part, 255) {
                Ok(p) => p,
                Err(e) => return Err(CidrError::InvalidPrefix(e)),
            };
            if prefix > 32 {
                return Err(CidrError::PrefixTooLong(prefix as u8));
            }
            let mask = prefix_to_mask(prefix as u8);
            Ok((ip & mask, mask))
        },
        None => {
            let ip = match parse_ipv4_addr(s) {
                Some(a) => a,
                None => return Err(CidrError::InvalidIp),
            };
            let mask: u32 = if ip == 0 {
                0
            } else {
                0xffff_ffff
            };
            Ok((ip, mask))
        },
    }
}

/// Parse "1.2.3.4" or "1.2.3.0/24" into (network_addr, mask).
pub fn parse_cidr(s: &str) -> (r: Result<(u32, u32), CidrError>)
    ensures
        r == spec_parse_cidr(s@),
{
    let v = chars_of(s);
    parse_cidr_chars(&v)
}

// ---------------------------------------------------------------------------
// The text of a rule.
// ---------------------------------------------------------------------------

pub open spec fn spec_protocol_name(p: u8) -> Seq<char> {
    if p == 1 {
        "icmp"@
    } else if p == 6 {
        "tcp"@
    } else if p == 17 {
        "udp"@
    } else if p == 47 {
        "gre"@
    } else if p == 50 {
        "esp"@
    } else if p == 51 {
        "ah"@
    } else if p == 132 {
        "sctp"@
    } else if p == 255 {
        "any"@
    } else {
        "?"@
    }
}

/// The name of a protocol number, or "?" for one a rule cannot name.
pub fn protocol_name(p: u8) -> (r: &'static str)
    ensures
        r@ == spec_protocol_name(p),
{
    match p {
        1 => "icmp",
        6 => "tcp",
        17 => "udp",
        47 => "gre",
        50 => "esp",
        51 => "ah",
        132 => "sctp",
        255 => "any",
        _ => "?",
    }
}

pub open spec fn spec_action_name(a: u8) -> Seq<char> {
    if a == 0 {
        "allow"@
    } else if a == 1 {
        "drop"@
    } else {
        "?"@
    }
}

/// The name of an action code, or "?" for an unknown one.
pub fn action_name(a: u8) -> (r: &'static str)
    ensures
        r@ == spec_action_name(a),
{
    match a {
        0 => "allow",
        1 => "drop",
        _ => "?",
    }
}

/// The number of consecutive set bits of `m` from bit `31 - n` downwards.
pub open spec fn ones_from(m: u32, n: nat) -> nat
    decreases 32 - n,
{
    if n >= 32 || !bit(m, (31 - n) as u32) {
        0
    } else {
        1 + ones_from(m, n + 1)
    }
}

/// The number of leading one bits of `m`.
pub open spec fn leading_ones(m: u32) -> nat {
    ones_from(m, 0)
}

proof fn lemma_ones_from_bound(m: u32, n: nat)
    ensures
        n <= 32 ==> ones_from(m, n) <= 32 - n,
    decreases 32 - n,
{
    if n < 32 {
        lemma_ones_from_bound(m, n + 1);
    }
}

/// The prefix length of a netmask: its number of leading one bits.
pub fn mask_to_prefix(mask: u32) -> (r: u8)
    ensures
        r == leading_ones(mask),
        r <= 32,
{
    let mut n: u32 = 0;
    while n < 32 && (mask >> (31 - n)) & 1 == 1
        invariant
            n <= 32,
            leading_ones(mask) == n + ones_from(mask, n as nat),
        decreases 32 - n,
    {
        n += 1;
    }
    proof {
        lemma_ones_from_bound(mask, 0);
    }
    n as u8
}

/// The prefix length read back from the netmask of a prefix is the prefix.
pub proof fn lemma_mask_prefix_roundtrip(p: u32)
    requires
        p <= 32,
    ensures
        leading_ones(prefix_mask(p as nat)) == p,
{
    let m = prefix_mask(p as nat);
    let q = p as u8;
    assert(is_prefix_mask(m, p)) by {
        if p == 0 {
            assert forall|i: u32| i < 32 implies #[trigger] bit(0u32, i) == (i + 0 >= 32) by {
                assert((0u32 >> i) & 1u32 == 0u32) by (bit_vector);
            }
        } else {
            assert forall|i: u32| i < 32 implies #[trigger] bit(m, i) == (i + p >= 32) by {
                assert(1 <= p <= 32 && i < 32 && m == !0u32 << ((32 - p) as u32) ==> (((m >> i)
                    & 1u32 == 1u32) == (i + p >= 32))) by (bit_vector);
            }
        }
    }
    lemma_ones_from_prefix_mask(m, p, 0);
}

proof fn lemma_ones_from_prefix_mask(m: u32, p: u32, n: nat)
    requires
        p <= 32,
        n <= p,
        is_prefix_mask(m, p),
    ensures
        ones_from(m, n) == p - n,
    decreases 32 - n,
{
    if n < 32 {
        assert(bit(m, (31 - n) as u32) == ((31 - n) as u32 + p >= 32));
        if n < p {
            lemma_ones_from_prefix_mask(m, p, n + 1);
        }
    }
}

/// No character of an address's dotted-quad text is a `/`.
proof fn lemma_ipv4_text_no_slash(a: u32)
    ensures
        forall|i: int| 0 <= i < ipv4_text(a).len() ==> #[trigger] ipv4_text(a)[i] != '/',
{
    let d0 = dec((a / 0x1000000) as nat);
    let d1 = dec(((a / 0x10000) % 0x100) as nat);
    let d2 = dec(((a / 0x100) % 0x100) as nat);
    let d3 = dec((a % 0x100) as nat);
    crate::text::lemma_dec((a / 0x1000000) as nat, 0);
    crate::text::lemma_dec(((a / 0x10000) % 0x100) as nat, 0);
    crate::text::lemma_dec(((a / 0x100) % 0x100) as nat, 0);
    crate::text::lemma_dec((a % 0x100) as nat, 0);
    let t = ipv4_text(a);
    assert forall|i: int| 0 <= i < t.len() implies #[trigger] t[i] != '/' by {
        let l0 = d0.len() as int;
        let l1 = l0 + 1 + d1.len();
        let l2 = l1 + 1 + d2.len();
        if i < l0 {
            assert(t[i] == d0[i]);
        } else if i == l0 {
        } else if i < l1 {
            assert(t[i] == d1[i - l0 - 1]);
        } else if i == l1 {
        } else if i < l2 {
            assert(t[i] == d2[i - l1 - 1]);
        } else if i == l2 {
        } else {
            assert(t[i] == d3[i - l2 - 1]);
        }
    }
}

/// The text of a bare address is read back as that host (any address but
/// 0.0.0.0, which reads as the wildcard).
proof fn lemma_host_text_parses_back(a: u32)
    requires
        a != 0,
    ensures
        spec_parse_cidr(ipv4_text(a)) == Ok::<(u32, u32), CidrError>((a, 0xffff_ffffu32)),
{
    lemma_ipv4_text_no_slash(a);
    crate::text::lemma_first_index(ipv4_text(a), '/');
    crate::text::lemma_parse_ipv4_text(a);
}

/// The network text that the rule listing shows reads back as the same
/// address and mask: for every pair that `parse_cidr` gives, except the
/// wildcard (mask 0, shown as `*`) and the host 0.0.0.0/32 (shown as
/// 0.0.0.0, which reads as the wildcard).
pub proof fn lemma_cidr_text_parses_back(s: Seq<char>)
    requires
        spec_parse_cidr(s) is Ok,
        spec_parse_cidr(s)->Ok_0.1 != 0,
        !(spec_parse_cidr(s)->Ok_0.0 == 0 && spec_parse_cidr(s)->Ok_0.1 == 0xffff_ffffu32),
    ensures
        spec_parse_cidr(cidr_text(spec_parse_cidr(s)->Ok_0.0, spec_parse_cidr(s)->Ok_0.1))
            == spec_parse_cidr(s),
{
    let (a, m) = spec_parse_cidr(s)->Ok_0;
    let all: u32 = 0xffff_ffff;
    assert(prefix_mask(32) == all) by {
        assert((!0u32) << 0u32 == 0xffff_ffffu32) by (bit_vector);
    }
    lemma_mask_prefix_roundtrip(32);
    match first_index(s, '/') {
        Some(k) => {
            let x = parse_ipv4(s.take(k))->Some_0;
            let p = parse_uint(s.skip(k + 1), 255)->Ok_0;
            let pm = prefix_mask(p);
            assert(a == x & pm && m == pm);
            lemma_mask_prefix_roundtrip(p as u32);
            if p == 32 {
                lemma_host_text_parses_back(a);
            } else {
                let t = ipv4_text(a);
                let d = dec(p);
                let full = t + "/"@ + d;
                assert(cidr_text(a, m) == full);
                reveal_strlit("/");
                lemma_ipv4_text_no_slash(a);
                crate::text::lemma_first_index(full, '/');
                assert(full[t.len() as int] == '/');
                assert forall|j: int| 0 <= j < t.len() implies full[j] != '/' by {
                    assert(full[j] == t[j]);
                }
                assert(first_index(full, '/') == Some(t.len() as int));
                assert(full.take(t.len() as int) =~= t);
                assert(full.skip(t.len() as int + 1) =~= d);
                crate::text::lemma_parse_ipv4_text(a);
                crate::text::lemma_parse_dec(p, 255);
                assert((x & pm) & pm == x & pm) by (bit_vector);
            }
        },
        None => {
            lemma_host_text_parses_back(a);
        },
    }
}

/// `s` padded with spaces on the right to at least `width` characters, as
/// the format specification `{:<width}` pads it.
pub open spec fn pad_right(s: Seq<char>, width: nat) -> Seq<char> {
    if s.len() >= width {
        s
    } else {
        s + Seq::new((width - s.len()) as nat, |i: int| ' ')
    }
}

fn push_padded(out: &mut Vec<char>, piece: &Vec<char>, width: usize)
    ensures
        final(out)@ == old(out)@ + pad_right(piece@, width as nat),
{
    let ghost start = out@;
    let mut i: usize = 0;
    while i < piece.len()
        invariant
            i <= piece.len(),
            out@ == start + piece@.take(i as int),
        decreases piece.len() - i,
    {
        out.push(piece[i]);
        assert(piece@.take(i as int).push(piece@[i as int]) =~= piece@.take(i + 1));
        i += 1;
    }
    assert(piece@.take(piece.len() as int) =~= piece@);
    let mut n: usize = piece.len();
    while n < width
        invariant
            piece.len() <= n,
            n <= width || n == piece.len(),
            out@ == start + piece@ + Seq::new((n - piece.len()) as nat, |i: int| ' '),
        decreases width - n,
    {
        out.push(' ');
        assert(start + piece@ + Seq::new((n - piece.len()) as nat, |i: int| ' ').push(' ') =~= start
            + piece@ + Seq::new((n + 1 - piece.len()) as nat, |i: int| ' '));
        n += 1;
    }
    assert(final(out)@ =~= start + pad_right(piece@, width as nat));
}

/// "*" for the wildcard mask; otherwise the address, followed by "/prefix"
/// unless the mask has all 32 bits set.
pub open spec fn cidr_text(ip: u32, mask: u32) -> Seq<char> {
    if mask == 0 {
        "*"@
    } else if leading_ones(mask) == 32 {
        ipv4_text(ip)
    } else {
        ipv4_text(ip) + "/"@ + dec(leading_ones(mask))
    }
}

fn ip_cidr_str(ip: u32, mask: u32) -> (r: Vec<char>)
    ensures
        r@ == cidr_text(ip, mask),
{
    let mut r: Vec<char> = Vec::new();
    if mask == 0 {
        push_str(&mut r, "*");
        return r;
    }
    push_ipv4(&mut r, ip);
    let prefix = mask_to_prefix(mask);
    if prefix != 32 {
        push_str(&mut r, "/");
        push_dec(&mut r, prefix as u32);
    }
    r
}

/// "*" for the wildcard port 0, the number otherwise.
pub open spec fn port_text(port: u16) -> Seq<char> {
    if port == 0 {
        "*"@
    } else {
        dec(port as nat)
    }
}

fn port_str(port: u16) -> (r: Vec<char>)
    ensures
        r@ == port_text(port),
{
    let mut r: Vec<char> = Vec::new();
    if port == 0 {
        push_str(&mut r, "*");
    } else {
        push_dec(&mut r, port as u32);
    }
    r
}

/// One line of the rule listing.
pub open spec fn rule_text(index: u32, rule: Rule) -> Seq<char> {
    "#"@ + pad_right(dec(index as nat), 3) + " src="@ + pad_right(
        cidr_text(rule.src_ip, rule.src_mask),
        18,
    ) + " sport="@ + pad_right(port_text(rule.src_port), 5) + " dst="@ + pad_right(
        cidr_text(rule.dest_ip, rule.dest_mask),
        18,
    ) + " dport="@ + pad_right(port_text(rule.dest_port), 5) + " proto="@ + pad_right(
        spec_protocol_name(rule.protocol),
        5,
    ) + " action="@ + spec_action_name(rule.action)
}

pub fn format_rule_chars(index: u32, rule: &Rule) -> (r: Vec<char>)
    ensures
        r@ == rule_text(index, *rule),
{
    let mut out: Vec<char> = Vec::new();
    push_str(&mut out, "#");
    let mut idx: Vec<char> = Vec::new();
    push_dec(&mut idx, index);
    assert(idx@ =~= dec(index as nat));
    push_padded(&mut out, &idx, 3);
    push_str(&mut out, " src=");
    push_padded(&mut out, &ip_cidr_str(rule.src_ip, rule.src_mask), 18);
    push_str(&mut out, " sport=");
    push_padded(&mut out, &port_str(rule.src_port), 5);
    push_str(&mut out, " dst=");
    push_padded(&mut out, &ip_cidr_str(rule.dest_ip, rule.dest_mask), 18);
    push_str(&mut out, " dport=");
    push_padded(&mut out, &port_str(rule.dest_port), 5);
    push_str(&mut out, " proto=");
    let mut pn: Vec<char> = Vec::new();
    push_str(&mut pn, protocol_name(rule.protocol));
    assert(pn@ =~= spec_protocol_name(rule.protocol));
    push_padded(&mut out, &pn, 5);
    push_str(&mut out, " action=");
    push_str(&mut out, action_name(rule.action));
    assert(out@ =~= rule_text(index, *rule));
    out
}

/// The line that lists rule number `index`.
pub fn format_rule(index: u32, rule: &Rule) -> (r: String)
    ensures
        r@ == rule_text(index, *rule),
{
    let v = format_rule_chars(index, rule);
    string_of(&v)
}

// ---------------------------------------------------------------------------
// Time stamps.
// ---------------------------------------------------------------------------

/// Two decimal digits whose value is at most `max`.
pub open spec fn two_digits(a: char, b: char, max: nat) -> bool {
    is_digit(a) && is_digit(b) && digit_val(a) * 10 + digit_val(b) <= max
}

/// A time of day written "HH:MM:SS" (a second of 60 is a leap second).
pub open spec fn is_hms(s: Seq<char>) -> bool {
    &&& s.len() == 8
    &&& s[2] == ':'
    &&& s[5] == ':'
    &&& two_digits(s[0], s[1], 23)
    &&& two_digits(s[3], s[4], 59)
    &&& two_digits(s[6], s[7], 60)
}

/// The local time of day, by `chrono::Local::now()` formatted with
/// "%H:%M:%S". Its value is the clock's, so the contract states only its
/// shape, which chrono documents for these three fields: two zero-padded
/// digits each, hours 00-23, minutes 00-59, seconds 00-60.
#[verifier::external_body]
pub(crate) fn local_time_hms() -> (r: String)
    ensures
        is_hms(r@),
{
    chrono::Local::now().format("%H:%M:%S").to_string()
}

/// "[HH:MM:SS] message".
pub open spec fn stamp_text(stamp: Seq<char>, msg: Seq<char>) -> Seq<char> {
    "["@ + stamp + "] "@ + msg
}

/// Appends "[stamp] msg" to `out`.
pub fn push_stamped(out: &mut Vec<char>, stamp: &Vec<char>, msg: &Vec<char>)
    ensures
        final(out)@ == old(out)@ + stamp_text(stamp@, msg@),
{
    push_str(out, "[");
    crate::text::push_chars(out, stamp);
    push_str(out, "] ");
    crate::text::push_chars(out, msg);
    assert(final(out)@ =~= old(out)@ + stamp_text(stamp@, msg@));
}

/// A reply line stamped with the current local time.
pub fn system_line(msg: &str) -> (r: String)
    ensures
        exists|stamp: Seq<char>| is_hms(stamp) && r@ == stamp_text(stamp, msg@),
{
    let now = local_time_hms();
    let stamp = chars_of(now.as_str());
    let mut out: Vec<char> = Vec::new();
    push_stamped(&mut out, &stamp, &chars_of(msg));
    string_of(&out)
}

// ---------------------------------------------------------------------------
// The networks of a listed rule read back.
// ---------------------------------------------------------------------------

/// `s` without its trailing spaces.
pub open spec fn trim_end(s: Seq<char>) -> Seq<char>
    decreases s.len(),
{
    if s.len() > 0 && s.last() == ' ' {
        trim_end(s.drop_last())
    } else {
        s
    }
}

proof fn lemma_trim_spaces(t: Seq<char>, n: nat)
    requires
        t.len() > 0,
        t.last() != ' ',
    ensures
        trim_end(t + Seq::new(n, |i: int| ' ')) == t,
    decreases n,
{
    let u = t + Seq::new(n, |i: int| ' ');
    if n == 0 {
        assert(u =~= t);
    } else {
        assert(u.drop_last() =~= t + Seq::new((n - 1) as nat, |i: int| ' '));
        lemma_trim_spaces(t, (n - 1) as nat);
    }
}

proof fn lemma_trim_padded(t: Seq<char>, w: nat)
    requires
        0 < t.len() <= w,
        t.last() != ' ',
    ensures
        trim_end(pad_right(t, w)) == t,
{
    if t.len() < w {
        lemma_trim_spaces(t, (w - t.len()) as nat);
    } else {
        lemma_trim_spaces(t, 0);
        assert(t + Seq::new(0, |i: int| ' ') =~= t);
    }
}

proof fn lemma_dec_len(n: nat)
    ensures
        dec(n).len() >= 1,
        n < 10 ==> dec(n).len() == 1,
        n < 100 ==> dec(n).len() <= 2,
        n < 1000 ==> dec(n).len() <= 3,
        n < 10000 ==> dec(n).len() <= 4,
        n < 100000 ==> dec(n).len() <= 5,
        is_digit(dec(n).last()),
    decreases n,
{
    crate::text::lemma_dec(n, 0);
    if n >= 10 {
        lemma_dec_len(n / 10);
    }
}

/// The text of any network is one to 18 characters long and does not end
/// in a space.
proof fn lemma_cidr_text_shape(a: u32, m: u32)
    ensures
        0 < cidr_text(a, m).len() <= 18,
        cidr_text(a, m).last() != ' ',
{
    lemma_ones_from_bound(m, 0);
    lemma_dec_len((a / 0x1000000) as nat);
    lemma_dec_len(((a / 0x10000) % 0x100) as nat);
    lemma_dec_len(((a / 0x100) % 0x100) as nat);
    lemma_dec_len((a % 0x100) as nat);
    lemma_dec_len(leading_ones(m));
    reveal_strlit("*");
    reveal_strlit("/");
    if m != 0 && leading_ones(m) != 32 {
        let t = ipv4_text(a) + "/"@ + dec(leading_ones(m));
        assert(t.last() == dec(leading_ones(m)).last());
    }
}

/// A network with its host bits clear reads back from its text.
proof fn lemma_network_text_reads_back(a: u32, p: nat)
    requires
        1 <= p <= 32,
        a & prefix_mask(p) == a,
        !(a == 0 && p == 32),
    ensures
        spec_parse_cidr(cidr_text(a, prefix_mask(p))) == Ok::<(u32, u32), CidrError>(
            (a, prefix_mask(p)),
        ),
{
    let pm = prefix_mask(p);
    assert(prefix_mask(32) == 0xffff_ffffu32) by {
        assert((!0u32) << 0u32 == 0xffff_ffffu32) by (bit_vector);
    }
    lemma_mask_prefix_roundtrip(p as u32);
    assert(pm != 0) by {
        let q = (32 - p) as u32;
        assert(q < 32 ==> (!0u32) << q != 0u32) by (bit_vector);
    }
    if p == 32 {
        lemma_host_text_parses_back(a);
    } else {
        let t = ipv4_text(a);
        let d = dec(p);
        let full = t + "/"@ + d;
        assert(cidr_text(a, pm) == full);
        reveal_strlit("/");
        lemma_ipv4_text_no_slash(a);
        crate::text::lemma_first_index(full, '/');
        assert(full[t.len() as int] == '/');
        assert forall|j: int| 0 <= j < t.len() implies full[j] != '/' by {
            assert(full[j] == t[j]);
        }
        assert(first_index(full, '/') == Some(t.len() as int));
        assert(full.take(t.len() as int) =~= t);
        assert(full.skip(t.len() as int + 1) =~= d);
        crate::text::lemma_parse_ipv4_text(a);
        crate::text::lemma_parse_dec(p, 255);
    }
}

/// Where the source and destination fields of a listing line begin: after
/// "#", the index padded to 3, and " src=" (and then the 18-wide source
/// field, " sport=", the 5-wide port and " dst=").
pub open spec fn src_field_at(index: u32) -> int {
    let w = dec(index as nat).len() as int;
    (if w >= 3 { w } else { 3 }) + 6
}

pub open spec fn dst_field_at(index: u32) -> int {
    src_field_at(index) + 35
}

/// The source and destination fields of a rule's listing line each show a
/// network so that it reads back: "*" for the wildcard mask 0, and for a
/// prefix mask over an address with clear host bits (other than the host
/// 0.0.0.0, which reads as the wildcard) a text that `parse_cidr` reads
/// as that same address and mask.
pub proof fn lemma_listed_networks_read_back(index: u32, r: Rule, src_prefix: nat, dst_prefix: nat)
    ensures
        rule_text(index, r).len() >= dst_field_at(index) + 18,
        r.src_mask == 0 ==> trim_end(
            rule_text(index, r).subrange(src_field_at(index), src_field_at(index) + 18),
        ) == "*"@,
        r.dest_mask == 0 ==> trim_end(
            rule_text(index, r).subrange(dst_field_at(index), dst_field_at(index) + 18),
        ) == "*"@,
        1 <= src_prefix <= 32 && r.src_mask == prefix_mask(src_prefix) && r.src_ip & r.src_mask
            == r.src_ip && !(r.src_ip == 0 && src_prefix == 32) ==> spec_parse_cidr(
            trim_end(rule_text(index, r).subrange(src_field_at(index), src_field_at(index) + 18)),
        ) == Ok::<(u32, u32), CidrError>((r.src_ip, r.src_mask)),
        1 <= dst_prefix <= 32 && r.dest_mask == prefix_mask(dst_prefix) && r.dest_ip & r.dest_mask
            == r.dest_ip && !(r.dest_ip == 0 && dst_prefix == 32) ==> spec_parse_cidr(
            trim_end(rule_text(index, r).subrange(dst_field_at(index), dst_field_at(index) + 18)),
        ) == Ok::<(u32, u32), CidrError>((r.dest_ip, r.dest_mask)),
{
    reveal_strlit("#");
    reveal_strlit(" src=");
    reveal_strlit(" sport=");
    reveal_strlit(" dst=");
    reveal_strlit("*");
    let line = rule_text(index, r);
    let idx = pad_right(dec(index as nat), 3);
    let sf = pad_right(cidr_text(r.src_ip, r.src_mask), 18);
    let sp = pad_right(port_text(r.src_port), 5);
    let df = pad_right(cidr_text(r.dest_ip, r.dest_mask), 18);
    lemma_cidr_text_shape(r.src_ip, r.src_mask);
    lemma_cidr_text_shape(r.dest_ip, r.dest_mask);
    lemma_dec_len(r.src_port as nat);
    assert(port_text(r.src_port).len() <= 5);
    assert(sf.len() == 18);
    assert(df.len() == 18);
    assert(sp.len() == 5);
    let t = "#"@ + idx + " src="@;
    assert(t.len() == src_field_at(index));
    let s = t + sf;
    let p = s + " sport="@ + sp + " dst="@;
    assert(p.len() == dst_field_at(index));
    let x = p + df;
    let rest = " dport="@ + pad_right(port_text(r.dest_port), 5) + " proto="@ + pad_right(
        spec_protocol_name(r.protocol),
        5,
    ) + " action="@ + spec_action_name(r.action);
    assert(line =~= x + rest);
    assert(line.subrange(src_field_at(index), src_field_at(index) + 18) =~= sf);
    assert(line.subrange(dst_field_at(index), dst_field_at(index) + 18) =~= df);
    lemma_trim_padded(cidr_text(r.src_ip, r.src_mask), 18);
    lemma_trim_padded(cidr_text(r.dest_ip, r.dest_mask), 18);
    if 1 <= src_prefix <= 32 && r.src_mask == prefix_mask(src_prefix) && r.src_ip & r.src_mask
        == r.src_ip && !(r.src_ip == 0 && src_prefix == 32) {
        lemma_network_text_reads_back(r.src_ip, src_prefix);
    }
    if 1 <= dst_prefix <= 32 && r.dest_mask == prefix_mask(dst_prefix) && r.dest_ip & r.dest_mask
        == r.dest_ip && !(r.dest_ip == 0 && dst_prefix == 32) {
        lemma_network_text_reads_back(r.dest_ip, dst_prefix);
    }
}

/// The dotted-quad text of four octets.
pub open spec fn quad_text(v0: nat, v1: nat, v2: nat, v3: nat) -> Seq<char> {
    dec(v0) + seq!['.'] + dec(v1) + seq!['.'] + dec(v2) + seq!['.'] + dec(v3)
}

proof fn lemma_quad_no_slash(v0: nat, v1: nat, v2: nat, v3: nat)
    ensures
        forall|i: int|
            0 <= i < quad_text(v0, v1, v2, v3).len() ==> #[trigger] quad_text(v0, v1, v2, v3)[i]
                != '/',
{
    crate::text::lemma_dec(v0, 0);
    crate::text::lemma_dec(v1, 0);
    crate::text::lemma_dec(v2, 0);
    crate::text::lemma_dec(v3, 0);
    let t = quad_text(v0, v1, v2, v3);
    let (d0, d1, d2, d3) = (dec(v0), dec(v1), dec(v2), dec(v3));
    assert forall|i: int| 0 <= i < t.len() implies #[trigger] t[i] != '/' by {
        let l0 = d0.len() as int;
        let l1 = l0 + 1 + d1.len();
        let l2 = l1 + 1 + d2.len();
        if i < l0 {
            assert(t[i] == d0[i]);
        } else if i == l0 {
        } else if i < l1 {
            assert(t[i] == d1[i - l0 - 1]);
        } else if i == l1 {
        } else if i < l2 {
            assert(t[i] == d2[i - l1 - 1]);
        } else if i == l2 {
        } else {
            assert(t[i] == d3[i - l2 - 1]);
        }
    }
}

/// What `parse_cidr` reads from an address written as four octets: a bare
/// address is a host (all 32 mask bits), except 0.0.0.0, the wildcard
/// (mask 0); with "/p" the mask has the top `p` bits set and the address
/// keeps only those bits; a prefix length from 33 to 255 is refused as too
/// long.
pub proof fn lemma_cidr_of_octets(v0: nat, v1: nat, v2: nat, v3: nat, p: nat)
    requires
        v0 <= 255,
        v1 <= 255,
        v2 <= 255,
        v3 <= 255,
        p <= 255,
    ensures
        ({
            let a = (v0 * 0x1000000 + v1 * 0x10000 + v2 * 0x100 + v3) as u32;
            let q = quad_text(v0, v1, v2, v3);
            &&& spec_parse_cidr(q) == Ok::<(u32, u32), CidrError>(
                (a, if a == 0 { 0u32 } else { 0xffff_ffffu32 }),
            )
            &&& p <= 32 ==> spec_parse_cidr(q + seq!['/'] + dec(p)) == Ok::<(u32, u32), CidrError>(
                (a & prefix_mask(p), prefix_mask(p)),
            )
            &&& p > 32 ==> spec_parse_cidr(q + seq!['/'] + dec(p)) == Err::<(u32, u32), CidrError>(
                CidrError::PrefixTooLong(p as u8),
            )
        }),
{
    let q = quad_text(v0, v1, v2, v3);
    crate::text::lemma_parse_dotted_quad(v0, v1, v2, v3);
    lemma_quad_no_slash(v0, v1, v2, v3);
    crate::text::lemma_first_index(q, '/');
    let full = q + seq!['/'] + dec(p);
    crate::text::lemma_first_index(full, '/');
    assert(full[q.len() as int] == '/');
    assert forall|j: int| 0 <= j < q.len() implies full[j] != '/' by {
        assert(full[j] == q[j]);
    }
    assert(first_index(full, '/') == Some(q.len() as int));
    assert(full.take(q.len() as int) =~= q);
    assert(full.skip(q.len() as int + 1) =~= dec(p));
    crate::text::lemma_parse_dec(p, 255);
}

} // verus!
