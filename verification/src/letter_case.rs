//! Letter case, and the choice among a command's aliases, do not change
//! what a console line means.
use vstd::prelude::*;

use crate::command::{
    spec_parse, spec_parse_help, spec_parse_ip, spec_parse_ip_or_cidr, spec_parse_port,
    spec_parse_port_rule, spec_parse_port_token, spec_parse_protocol, spec_parse_remove_command,
    spec_parse_rule_command, spec_parse_rule_target, spec_parse_rules_command, spec_port_options,
    BlockProtocol,
};
use crate::text::{
    first_index, is_digit, is_ws, join_on, lemma_join_split, lower, lower_char, parse_ipv4,
    parse_uint, scan_digits, split_on, split_ws,
};
use crate::util::spec_parse_cidr;

verus! {

/// `c` is not an ASCII letter, so no change of letter case touches it.
pub open spec fn not_letter(c: char) -> bool {
    !('A' <= c && c <= 'Z') && !('a' <= c && c <= 'z')
}

/// No character of `t` is an ASCII letter.
pub open spec fn no_letter(t: Seq<char>) -> bool {
    forall|i: int| 0 <= i < t.len() ==> not_letter(#[trigger] t[i])
}

/// Two words that agree up to ASCII letter case.
pub open spec fn same_word(a: Seq<char>, b: Seq<char>) -> bool {
    lower(a) == lower(b)
}

/// Two lists of words that agree word by word up to ASCII letter case.
pub open spec fn same_words(a: Seq<Seq<char>>, b: Seq<Seq<char>>) -> bool {
    &&& a.len() == b.len()
    &&& forall|k: int| 0 <= k < a.len() ==> same_word(#[trigger] a[k], b[k])
}

/// The command that a first word names, one number for each group of
/// aliases: help/?, block/deny, allow, rules/list, remove/rm/del/delete.
pub open spec fn command_group(w: Seq<char>) -> Option<int> {
    let l = lower(w);
    if l == "help"@ || l == "?"@ {
        Some(0)
    } else if l == "block"@ || l == "deny"@ {
        Some(1)
    } else if l == "allow"@ {
        Some(2)
    } else if l == "rules"@ || l == "list"@ {
        Some(3)
    } else if l == "remove"@ || l == "rm"@ || l == "del"@ || l == "delete"@ {
        Some(4)
    } else {
        None
    }
}

/// Two first words that agree up to letter case, or that are aliases of
/// one command.
pub open spec fn same_command_word(a: Seq<char>, b: Seq<char>) -> bool {
    same_word(a, b) || (command_group(a) is Some && command_group(a) == command_group(b))
}

/// Two results of which, as soon as one is a success, both are the same.
pub open spec fn agree<T, E>(r1: Result<T, E>, r2: Result<T, E>) -> bool {
    (r1 is Ok || r2 is Ok) ==> r1 == r2
}

// ---------------------------------------------------------------------------
// Words without letters.
// ---------------------------------------------------------------------------

proof fn lemma_lower_no_letter(t: Seq<char>)
    requires
        no_letter(t),
    ensures
        lower(t) == t,
{
    assert(lower(t) =~= t);
}

proof fn lemma_lower_idem(t: Seq<char>)
    ensures
        lower(lower(t)) == lower(t),
{
    assert(lower(lower(t)) =~= lower(t));
}

proof fn lemma_lower_push(t: Seq<char>, c: char)
    ensures
        lower(t.push(c)) == lower(t).push(lower_char(c)),
{
    assert(lower(t.push(c)) =~= lower(t).push(lower_char(c)));
}

/// A word without letters is the only word that agrees with it up to case.
proof fn lemma_same_word_no_letter(a: Seq<char>, b: Seq<char>)
    requires
        same_word(a, b),
        no_letter(a),
    ensures
        a == b,
{
    lemma_lower_no_letter(a);
    assert(a.len() == b.len()) by {
        assert(lower(a).len() == a.len());
        assert(lower(b).len() == b.len());
    }
    assert forall|i: int| 0 <= i < a.len() implies a[i] == b[i] by {
        assert(lower(b)[i] == lower_char(b[i]));
        assert(lower(a)[i] == a[i]);
    }
    assert(a =~= b);
}

proof fn lemma_scan_no_letter(t: Seq<char>, max: nat)
    requires
        scan_digits(t, max) is Ok,
    ensures
        no_letter(t),
    decreases t.len(),
{
    if t.len() > 0 {
        lemma_scan_no_letter(t.drop_last(), max);
        assert forall|i: int| 0 <= i < t.len() implies not_letter(#[trigger] t[i]) by {
            if i < t.len() - 1 {
                assert(t.drop_last()[i] == t[i]);
            } else {
                assert(is_digit(t.last()));
            }
        }
    }
}

proof fn lemma_uint_no_letter(t: Seq<char>, max: nat)
    requires
        parse_uint(t, max) is Ok,
    ensures
        no_letter(t),
{
    if t[0] == '+' {
        lemma_scan_no_letter(t.drop_first(), max);
        assert forall|i: int| 0 <= i < t.len() implies not_letter(#[trigger] t[i]) by {
            if i > 0 {
                assert(t.drop_first()[i - 1] == t[i]);
            }
        }
    } else {
        lemma_scan_no_letter(t, max);
    }
}

proof fn lemma_join_no_letter(parts: Seq<Seq<char>>, sep: char)
    requires
        not_letter(sep),
        forall|k: int| 0 <= k < parts.len() ==> no_letter(#[trigger] parts[k]),
    ensures
        no_letter(join_on(parts, sep)),
    decreases parts.len(),
{
    if parts.len() > 1 {
        let front = parts.drop_last();
        assert forall|k: int| 0 <= k < front.len() implies no_letter(#[trigger] front[k]) by {
            assert(front[k] == parts[k]);
        }
        lemma_join_no_letter(front, sep);
        assert(no_letter(parts[parts.len() - 1]));
        let j = join_on(parts, sep);
        let a = join_on(front, sep);
        assert forall|i: int| 0 <= i < j.len() implies not_letter(#[trigger] j[i]) by {
            if i < a.len() {
                assert(j[i] == a[i]);
            } else if i == a.len() {
                assert(j[i] == sep);
            } else {
                assert(j[i] == parts.last()[i - a.len() - 1]);
            }
        }
    } else if parts.len() == 1 {
        assert(no_letter(parts[0]));
    }
}

proof fn lemma_ipv4_no_letter(t: Seq<char>)
    requires
        parse_ipv4(t) is Some,
    ensures
        no_letter(t),
{
    let parts = split_on(t, '.');
    assert forall|k: int| 0 <= k < parts.len() implies no_letter(#[trigger] parts[k]) by {
        assert(k == 0 || k == 1 || k == 2 || k == 3);
        lemma_scan_no_letter(parts[k], 255);
    }
    lemma_join_no_letter(parts, '.');
    lemma_join_split(t, '.');
}

proof fn lemma_first_index_lower(t: Seq<char>, c: char)
    requires
        not_letter(c),
    ensures
        first_index(lower(t), c) == first_index(t, c),
    decreases t.len(),
{
    if t.len() > 0 {
        assert(lower(t).drop_last() =~= lower(t.drop_last()));
        lemma_first_index_lower(t.drop_last(), c);
        assert(lower(t).last() == lower_char(t.last()));
    }
}

proof fn lemma_cidr_no_letter(t: Seq<char>)
    requires
        spec_parse_cidr(t) is Ok,
    ensures
        no_letter(t),
{
    match first_index(t, '/') {
        Some(k) => {
            crate::text::lemma_first_index(t, '/');
            lemma_ipv4_no_letter(t.take(k));
            lemma_uint_no_letter(t.skip(k + 1), 255);
            assert forall|i: int| 0 <= i < t.len() implies not_letter(#[trigger] t[i]) by {
                if i < k {
                    assert(t.take(k)[i] == t[i]);
                } else if i > k {
                    assert(t.skip(k + 1)[i - k - 1] == t[i]);
                }
            }
        },
        None => {
            lemma_ipv4_no_letter(t);
        },
    }
}

proof fn lemma_ip_or_cidr_no_letter(t: Seq<char>)
    requires
        spec_parse_ip_or_cidr(t) is Ok,
    ensures
        no_letter(t),
{
    if first_index(t, '/') is Some {
        lemma_cidr_no_letter(t);
    } else {
        lemma_ipv4_no_letter(t);
    }
}

// ---------------------------------------------------------------------------
// Words that agree up to case parse alike.
// ---------------------------------------------------------------------------

proof fn lemma_ip_agree(a: Seq<char>, b: Seq<char>)
    requires
        same_word(a, b),
    ensures
        agree(spec_parse_ip(a), spec_parse_ip(b)),
{
    if parse_ipv4(a) is Some {
        lemma_ipv4_no_letter(a);
        lemma_same_word_no_letter(a, b);
    } else if parse_ipv4(b) is Some {
        lemma_ipv4_no_letter(b);
        lemma_same_word_no_letter(b, a);
    }
}

/// A word that is an address or network agrees with nothing but itself.
proof fn lemma_ip_or_cidr_agree(a: Seq<char>, b: Seq<char>)
    requires
        same_word(a, b),
    ensures
        (spec_parse_ip_or_cidr(a) is Ok || spec_parse_ip_or_cidr(b) is Ok) ==> a == b,
{
    if spec_parse_ip_or_cidr(a) is Ok {
        lemma_ip_or_cidr_no_letter(a);
        lemma_same_word_no_letter(a, b);
    } else if spec_parse_ip_or_cidr(b) is Ok {
        lemma_ip_or_cidr_no_letter(b);
        lemma_same_word_no_letter(b, a);
    }
}

proof fn lemma_port_agree(a: Seq<char>, b: Seq<char>)
    requires
        same_word(a, b),
    ensures
        agree(spec_parse_port(a), spec_parse_port(b)),
{
    if parse_uint(a, 65535) is Ok {
        lemma_uint_no_letter(a, 65535);
        lemma_same_word_no_letter(a, b);
    } else if parse_uint(b, 65535) is Ok {
        lemma_uint_no_letter(b, 65535);
        lemma_same_word_no_letter(b, a);
    }
}

proof fn lemma_protocol_agree(a: Seq<char>, b: Seq<char>)
    requires
        same_word(a, b),
    ensures
        agree(spec_parse_protocol(a), spec_parse_protocol(b)),
{
}

proof fn lemma_port_token_agree(a: Seq<char>, b: Seq<char>)
    requires
        same_word(a, b),
    ensures
        agree(spec_parse_port_token(a), spec_parse_port_token(b)),
{
    lemma_first_index_lower(a, '/');
    lemma_first_index_lower(b, '/');
    match first_index(a, '/') {
        Some(k) => {
            crate::text::lemma_first_index(a, '/');
            assert(lower(a.take(k)) =~= lower(a).take(k));
            assert(lower(b.take(k)) =~= lower(b).take(k));
            assert(lower(a.skip(k + 1)) =~= lower(a).skip(k + 1));
            assert(lower(b.skip(k + 1)) =~= lower(b).skip(k + 1));
            lemma_port_agree(a.take(k), b.take(k));
            lemma_protocol_agree(a.skip(k + 1), b.skip(k + 1));
        },
        None => {
            lemma_port_agree(a, b);
        },
    }
}

proof fn lemma_port_options_agree(
    a: Seq<Seq<char>>,
    b: Seq<Seq<char>>,
    i: int,
    protocol: BlockProtocol,
    src_ip: Option<Seq<char>>,
)
    requires
        same_words(a, b),
    ensures
        agree(spec_port_options(a, i, protocol, src_ip), spec_port_options(b, i, protocol, src_ip)),
    decreases a.len() - i,
{
    if 0 <= i < a.len() {
        assert(same_word(a[i], b[i]));
        let w = lower(a[i]);
        if w == "proto"@ {
            if i + 1 < a.len() {
                assert(same_word(a[i + 1], b[i + 1]));
                lemma_protocol_agree(a[i + 1], b[i + 1]);
                if spec_parse_protocol(a[i + 1]) is Ok {
                    let p = spec_parse_protocol(a[i + 1])->Ok_0;
                    lemma_port_options_agree(a, b, i + 2, p, src_ip);
                }
            }
        } else if w == "from"@ {
            if i + 1 < a.len() {
                assert(same_word(a[i + 1], b[i + 1]));
                lemma_ip_or_cidr_agree(a[i + 1], b[i + 1]);
                if spec_parse_ip_or_cidr(a[i + 1]) is Ok {
                    let ip = spec_parse_ip_or_cidr(a[i + 1])->Ok_0;
                    lemma_port_options_agree(a, b, i + 2, protocol, Some(ip));
                }
            }
        }
    }
}

proof fn lemma_port_rule_agree(a: Seq<Seq<char>>, b: Seq<Seq<char>>)
    requires
        same_words(a, b),
    ensures
        agree(spec_parse_port_rule(a), spec_parse_port_rule(b)),
{
    if a.len() > 0 {
        assert(same_word(a[0], b[0]));
        lemma_port_token_agree(a[0], b[0]);
        if spec_parse_port_token(a[0]) is Ok {
            let (port, suffix) = spec_parse_port_token(a[0])->Ok_0;
            let protocol = match suffix {
                Some(p) => p,
                None => BlockProtocol::Any,
            };
            lemma_port_options_agree(a, b, 1, protocol, None);
        }
    }
}

proof fn lemma_same_words_rest(a: Seq<Seq<char>>, b: Seq<Seq<char>>)
    requires
        same_words(a, b),
        a.len() > 0,
    ensures
        same_words(a.drop_first(), b.drop_first()),
{
    assert forall|k: int| 0 <= k < a.drop_first().len() implies same_word(
        #[trigger] a.drop_first()[k],
        b.drop_first()[k],
    ) by {
        assert(same_word(a[k + 1], b[k + 1]));
    }
}

proof fn lemma_rule_target_agree(a: Seq<Seq<char>>, b: Seq<Seq<char>>)
    requires
        same_words(a, b),
    ensures
        agree(spec_parse_rule_target(a), spec_parse_rule_target(b)),
{
    if a.len() > 0 {
        assert(same_word(a[0], b[0]));
        let w = lower(a[0]);
        if w == "from"@ {
            if a.len() == 2 {
                assert(same_word(a[1], b[1]));
                lemma_ip_or_cidr_agree(a[1], b[1]);
            }
        } else if w == "port"@ {
            lemma_same_words_rest(a, b);
            lemma_port_rule_agree(a.drop_first(), b.drop_first());
        } else {
            lemma_ip_or_cidr_agree(a[0], b[0]);
            if a.len() == 2 {
                assert(same_word(a[1], b[1]));
                lemma_protocol_agree(a[0], b[0]);
                lemma_port_agree(a[1], b[1]);
            }
        }
    }
}

proof fn lemma_help_agree(a: Seq<Seq<char>>, b: Seq<Seq<char>>)
    requires
        same_words(a, b),
    ensures
        agree(spec_parse_help(a), spec_parse_help(b)),
{
    if a.len() == 1 {
        assert(same_word(a[0], b[0]));
    }
}

proof fn lemma_rules_command_agree(a: Seq<Seq<char>>, b: Seq<Seq<char>>)
    requires
        same_words(a, b),
    ensures
        agree(spec_parse_rules_command(a), spec_parse_rules_command(b)),
{
    if a.len() == 1 {
        assert(same_word(a[0], b[0]));
        lemma_ip_agree(a[0], b[0]);
    }
}

proof fn lemma_remove_command_agree(a: Seq<Seq<char>>, b: Seq<Seq<char>>)
    requires
        same_words(a, b),
    ensures
        agree(spec_parse_remove_command(a), spec_parse_remove_command(b)),
{
    if a.len() == 1 {
        assert(same_word(a[0], b[0]));
        lemma_ip_agree(a[0], b[0]);
    }
}

proof fn lemma_rule_command_agree(a: Seq<Seq<char>>, b: Seq<Seq<char>>, is_block: bool)
    requires
        same_words(a, b),
    ensures
        agree(spec_parse_rule_command(a, is_block), spec_parse_rule_command(b, is_block)),
{
    lemma_rule_target_agree(a, b);
}

/// Lower case splits into the lower case of the words.
proof fn lemma_split_ws_lower(s: Seq<char>)
    ensures
        split_ws(lower(s)) == split_ws(s).map_values(|t: Seq<char>| lower(t)),
    decreases s.len(),
{
    if s.len() == 0 {
        assert(lower(s) =~= s);
        assert(split_ws(s).map_values(|t: Seq<char>| lower(t)) =~= Seq::<Seq<char>>::empty());
    } else {
        let p = s.drop_last();
        let ls = lower(s);
        assert(ls.drop_last() =~= lower(p));
        assert(ls.last() == lower_char(s.last()));
        lemma_split_ws_lower(p);
        let prev = split_ws(p);
        let lprev = prev.map_values(|t: Seq<char>| lower(t));
        assert(is_ws(lower_char(s.last())) == is_ws(s.last()));
        if s.len() >= 2 {
            assert(ls[ls.len() - 2] == lower_char(s[s.len() - 2]));
            assert(is_ws(lower_char(s[s.len() - 2])) == is_ws(s[s.len() - 2]));
        }
        if is_ws(s.last()) {
        } else if s.len() >= 2 && !is_ws(s[s.len() - 2]) && prev.len() > 0 {
            lemma_lower_push(prev.last(), s.last());
            assert(split_ws(s).map_values(|t: Seq<char>| lower(t)) =~= lprev.update(
                lprev.len() - 1,
                lprev.last().push(lower_char(s.last())),
            ));
        } else {
            assert(lower(seq![s.last()]) =~= seq![lower_char(s.last())]);
            assert(split_ws(s).map_values(|t: Seq<char>| lower(t)) =~= lprev.push(
                seq![lower_char(s.last())],
            ));
        }
    }
}

// ---------------------------------------------------------------------------
// The laws.
// ---------------------------------------------------------------------------

/// Letter case and aliases do not matter to the console: two lines whose
/// words agree up to ASCII letter case, except that their first words may
/// instead be aliases of one command (block/deny, help/?, rules/list,
/// remove/rm/del/delete), are both commands or both refused, and as
/// commands they are the same command.
pub proof fn lemma_parse_ignores_case_and_aliases(s1: Seq<char>, s2: Seq<char>)
    requires
        split_ws(s1).len() == split_ws(s2).len(),
        split_ws(s1).len() > 0 ==> same_command_word(split_ws(s1)[0], split_ws(s2)[0]),
        forall|k: int|
            1 <= k < split_ws(s1).len() ==> same_word(#[trigger] split_ws(s1)[k], split_ws(s2)[k]),
    ensures
        (spec_parse(s1) is Ok) == (spec_parse(s2) is Ok),
        spec_parse(s1) is Ok ==> spec_parse(s1) == spec_parse(s2),
{
    let t1 = split_ws(s1);
    let t2 = split_ws(s2);
    if t1.len() > 0 {
        let a = t1.drop_first();
        let b = t2.drop_first();
        assert forall|k: int| 0 <= k < a.len() implies same_word(#[trigger] a[k], b[k]) by {
            assert(same_word(t1[k + 1], t2[k + 1]));
        }
        assert(same_words(a, b));
        lemma_help_agree(a, b);
        lemma_rule_command_agree(a, b, true);
        lemma_rule_command_agree(a, b, false);
        lemma_rules_command_agree(a, b);
        lemma_remove_command_agree(a, b);
    }
}

/// A line that is a command means the same command when written in lower
/// case.
pub proof fn lemma_parse_ignores_case(s: Seq<char>)
    requires
        spec_parse(s) is Ok,
    ensures
        spec_parse(lower(s)) == spec_parse(s),
{
    lemma_split_ws_lower(s);
    let t = split_ws(s);
    let lt = split_ws(lower(s));
    assert forall|k: int| 0 <= k < t.len() implies same_word(#[trigger] t[k], lt[k]) by {
        lemma_lower_idem(t[k]);
    }
    lemma_parse_ignores_case_and_aliases(s, lower(s));
}

} // verus!
