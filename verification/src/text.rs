//! Character-level text handling: whitespace, case, tokens, decimal numbers
//! and dotted-quad IPv4 addresses.
use vstd::prelude::*;

verus! {

// ---------------------------------------------------------------------------
// Conversions between `str`/`String` and vectors of characters.
// ---------------------------------------------------------------------------

/// Appends one character to a `String` with `String::push`.
#[verifier::external_body]
pub(crate) fn string_push(s: &mut String, c: char)
    ensures
        final(s)@ == old(s)@.push(c),
{
    s.push(c);
}

/// Removes the last character of a `String` with `String::pop`.
#[verifier::external_body]
pub(crate) fn string_pop(s: &mut String) -> (r: Option<char>)
    ensures
        old(s)@.len() == 0 ==> r is None && final(s)@ == old(s)@,
        old(s)@.len() > 0 ==> r == Some(old(s)@.last()) && final(s)@ == old(s)@.drop_last(),
{
    s.pop()
}

/// Empties a `String` with `String::clear`.
#[verifier::external_body]
pub(crate) fn string_clear(s: &mut String)
    ensures
        final(s)@ == Seq::<char>::empty(),
{
    s.clear();
}

/// The characters of `s`, in order.
pub fn chars_of(s: &str) -> (r: Vec<char>)
    ensures
        r@ == s@,
{
    let mut r: Vec<char> = Vec::new();
    for c in it: s.chars()
        invariant
            r@ == it.seq().take(it.index() as int),
            it.seq() == s@,
    {
        r.push(c);
    }
    r
}

/// The `String` made of the characters of `v`.
pub fn string_of(v: &Vec<char>) -> (r: String)
    ensures
        r@ == v@,
{
    let mut r = String::new();
    let mut i: usize = 0;
    while i < v.len()
        invariant
            i <= v.len(),
            r@ == v@.take(i as int),
        decreases v.len() - i,
    {
        string_push(&mut r, v[i]);
        assert(v@.take(i as int).push(v@[i as int]) =~= v@.take(i + 1));
        i += 1;
    }
    assert(v@.take(v.len() as int) =~= v@);
    r
}

/// Appends the characters of `s` to `out`.
pub fn push_str(out: &mut Vec<char>, s: &str)
    ensures
        final(out)@ == old(out)@ + s@,
{
    let ghost start = out@;
    for c in it: s.chars()
        invariant
            out@ == start + it.seq().take(it.index() as int),
            it.seq() == s@,
    {
        out.push(c);
    }
}

/// Appends the characters of `v` to `out`.
pub fn push_chars(out: &mut Vec<char>, v: &Vec<char>)
    ensures
        final(out)@ == old(out)@ + v@,
{
    let ghost start = out@;
    let mut i: usize = 0;
    while i < v.len()
        invariant
            i <= v.len(),
            out@ == start + v@.take(i as int),
        decreases v.len() - i,
    {
        out.push(v[i]);
        assert(v@.take(i as int).push(v@[i as int]) =~= v@.take(i + 1));
        i += 1;
    }
    assert(v@.take(v.len() as int) =~= v@);
}

/// Whether two character sequences are equal.
pub fn chars_eq(a: &Vec<char>, b: &Vec<char>) -> (r: bool)
    ensures
        r == (a@ == b@),
{
    if a.len() != b.len() {
        return false;
    }
    let mut i: usize = 0;
    while i < a.len()
        invariant
            i <= a.len(),
            a.len() == b.len(),
            forall|j: int| 0 <= j < i ==> a@[j] == b@[j],
        decreases a.len() - i,
    {
        if a[i] != b[i] {
            return false;
        }
        i += 1;
    }
    assert(a@ =~= b@);
    true
}

/// Whether the characters of `a` are those of the text `w`.
pub fn is_word(a: &Vec<char>, w: &str) -> (r: bool)
    ensures
        r == (a@ == w@),
{
    let wv = chars_of(w);
    chars_eq(a, &wv)
}

/// The characters `v[from..to]`.
pub fn sub_chars(v: &Vec<char>, from: usize, to: usize) -> (r: Vec<char>)
    requires
        from <= to <= v.len(),
    ensures
        r@ == v@.subrange(from as int, to as int),
{
    let mut r: Vec<char> = Vec::new();
    let mut i: usize = from;
    while i < to
        invariant
            from <= i <= to <= v.len(),
            r@ == v@.subrange(from as int, i as int),
        decreases to - i,
    {
        r.push(v[i]);
        assert(v@.subrange(from as int, i as int).push(v@[i as int]) =~= v@.subrange(
            from as int,
            i + 1,
        ));
        i += 1;
    }
    r
}

// ---------------------------------------------------------------------------
// Whitespace and case.
// ---------------------------------------------------------------------------

/// The characters with the Unicode `White_Space` property, which is what
/// `char::is_whitespace`, `str::trim` and `str::split_whitespace` go by.
pub open spec fn is_ws(c: char) -> bool {
    ||| c == '\t'
    ||| c == '\n'
    ||| c == '\u{0B}'
    ||| c == '\u{0C}'
    ||| c == '\r'
    ||| c == ' '
    ||| c == '\u{85}'
    ||| c == '\u{A0}'
    ||| c == '\u{1680}'
    ||| ('\u{2000}' <= c && c <= '\u{200A}')
    ||| c == '\u{2028}'
    ||| c == '\u{2029}'
    ||| c == '\u{202F}'
    ||| c == '\u{205F}'
    ||| c == '\u{3000}'
}

pub fn is_whitespace(c: char) -> (r: bool)
    ensures
        r == is_ws(c),
{
    c == '\t' || c == '\n' || c == '\u{0B}' || c == '\u{0C}' || c == '\r' || c == ' ' || c
        == '\u{85}' || c == '\u{A0}' || c == '\u{1680}' || ('\u{2000}' <= c && c <= '\u{200A}')
        || c == '\u{2028}' || c == '\u{2029}' || c == '\u{202F}' || c == '\u{205F}' || c
        == '\u{3000}'
}

/// ASCII lower case of one character: `A`..=`Z` become `a`..=`z`, every other
/// character stays.
pub open spec fn lower_char(c: char) -> char {
    if 'A' <= c && c <= 'Z' {
        ((c as u32) + 32) as char
    } else {
        c
    }
}

/// ASCII lower case of a text, as `str::to_ascii_lowercase` gives it.
pub open spec fn lower(s: Seq<char>) -> Seq<char> {
    s.map_values(|c: char| lower_char(c))
}

pub fn to_lower_char(c: char) -> (r: char)
    ensures
        r == lower_char(c),
{
    if 'A' <= c && c <= 'Z' {
        let b: u8 = (c as u32) as u8;
        (b + 32) as char
    } else {
        c
    }
}

pub fn to_lower(v: &Vec<char>) -> (r: Vec<char>)
    ensures
        r@ == lower(v@),
{
    let mut r: Vec<char> = Vec::new();
    let mut i: usize = 0;
    while i < v.len()
        invariant
            i <= v.len(),
            r@ == lower(v@.take(i as int)),
        decreases v.len() - i,
    {
        r.push(to_lower_char(v[i]));
        assert(lower(v@.take(i as int)).push(lower_char(v@[i as int])) =~= lower(
            v@.take(i + 1),
        ));
        i += 1;
    }
    assert(v@.take(v.len() as int) =~= v@);
    r
}

// ---------------------------------------------------------------------------
// Tokens.
// ---------------------------------------------------------------------------

/// The maximal runs of non-whitespace characters of `s`, in order: what
/// `str::split_whitespace` yields.
pub open spec fn split_ws(s: Seq<char>) -> Seq<Seq<char>>
    decreases s.len(),
{
    if s.len() == 0 {
        seq![]
    } else {
        let prev = split_ws(s.drop_last());
        let c = s.last();
        if is_ws(c) {
            prev
        } else if s.len() >= 2 && !is_ws(s[s.len() - 2]) && prev.len() > 0 {
            prev.update(prev.len() - 1, prev.last().push(c))
        } else {
            prev.push(seq![c])
        }
    }
}

/// A text ending in a non-whitespace character has at least one token.
proof fn lemma_split_ws_nonempty(s: Seq<char>)
    requires
        s.len() > 0,
        !is_ws(s.last()),
    ensures
        split_ws(s).len() > 0,
    decreases s.len(),
{
}

/// The view of a vector of character vectors.
pub open spec fn views(v: Seq<Vec<char>>) -> Seq<Seq<char>> {
    v.map_values(|t: Vec<char>| t@)
}

/// The whitespace-separated tokens of `s`.
pub fn split_whitespace(s: &Vec<char>) -> (r: Vec<Vec<char>>)
    ensures
        views(r@) == split_ws(s@),
{
    let mut toks: Vec<Vec<char>> = Vec::new();
    let mut cur: Vec<char> = Vec::new();
    let mut in_tok = false;
    let mut i: usize = 0;
    while i < s.len()
        invariant
            i <= s.len(),
            in_tok == (i > 0 && !is_ws(s@[i - 1])),
            in_tok ==> split_ws(s@.take(i as int)) == views(toks@).push(cur@),
            !in_tok ==> split_ws(s@.take(i as int)) == views(toks@),
        decreases s.len() - i,
    {
        let c = s[i];
        let ghost pre = s@.take(i as int);
        let ghost next = s@.take(i + 1);
        assert(next.drop_last() =~= pre);
        assert(next.last() == c);
        if is_whitespace(c) {
            if in_tok {
                let t = cur;
                toks.push(t);
                cur = Vec::new();
                assert(views(toks@) =~= split_ws(pre));
            }
            in_tok = false;
        } else {
            if in_tok {
                proof {
                    lemma_split_ws_nonempty(pre);
                    assert(next[next.len() - 2] == s@[i - 1]);
                }
                cur.push(c);
                assert(split_ws(next) =~= views(toks@).push(cur@));
            } else {
                cur = Vec::new();
                cur.push(c);
                assert(split_ws(next) =~= views(toks@).push(cur@));
            }
            in_tok = true;
        }
        i += 1;
    }
    if in_tok {
        toks.push(cur);
    }
    assert(s@.take(s.len() as int) =~= s@);
    assert(views(toks@) =~= split_ws(s@));
    toks
}

// ---------------------------------------------------------------------------
// Decimal numbers.
// ---------------------------------------------------------------------------

/// Why a text is not an unsigned number, as `core::num::IntErrorKind` tells it.
#[derive(Clone, Copy, Debug, PartialEq, Eq, Structural)]
pub enum IntErrorKind {
    Empty,
    InvalidDigit,
    PosOverflow,
}

pub open spec fn is_digit(c: char) -> bool {
    '0' <= c && c <= '9'
}

pub open spec fn digit_val(c: char) -> nat {
    ((c as u32) - 48) as nat
}

/// The character of a decimal digit.
pub open spec fn digit_char(d: nat) -> char {
    ((d + 48) as u32) as char
}

/// Reads `s` as decimal digits from left to right: the first character that
/// is not a digit gives `InvalidDigit`, and the first digit that takes the
/// value past `max` gives `PosOverflow`.
pub open spec fn scan_digits(s: Seq<char>, max: nat) -> Result<nat, IntErrorKind>
    decreases s.len(),
{
    if s.len() == 0 {
        Ok(0)
    } else {
        match scan_digits(s.drop_last(), max) {
            Err(e) => Err(e),
            Ok(v) => if !is_digit(s.last()) {
                Err(IntErrorKind::InvalidDigit)
            } else if v * 10 + digit_val(s.last()) > max {
                Err(IntErrorKind::PosOverflow)
            } else {
                Ok(v * 10 + digit_val(s.last()))
            },
        }
    }
}

/// An unsigned integer no greater than `max`, as `str::parse` reads one: an
/// optional `+` and then decimal digits only.
pub open spec fn parse_uint(s: Seq<char>, max: nat) -> Result<nat, IntErrorKind> {
    if s.len() == 0 {
        Err(IntErrorKind::Empty)
    } else if s == seq!['+'] || s == seq!['-'] {
        Err(IntErrorKind::InvalidDigit)
    } else if s[0] == '+' {
        scan_digits(s.drop_first(), max)
    } else {
        scan_digits(s, max)
    }
}

proof fn lemma_scan_bound(s: Seq<char>, max: nat)
    ensures
        scan_digits(s, max) matches Ok(v) ==> v <= max,
    decreases s.len(),
{
    if s.len() > 0 {
        lemma_scan_bound(s.drop_last(), max);
    }
}

fn scan_from(s: &Vec<char>, start: usize, max: u32) -> (r: Result<u32, IntErrorKind>)
    requires
        start <= s.len(),
    ensures
        match r {
            Ok(v) => scan_digits(s@.skip(start as int), max as nat) == Ok::<nat, IntErrorKind>(
                v as nat,
            ),
            Err(e) => scan_digits(s@.skip(start as int), max as nat) == Err::<nat, IntErrorKind>(
                e,
            ),
        },
{
    let mut v: u64 = 0;
    let mut i: usize = start;
    while i < s.len()
        invariant
            start <= i <= s.len(),
            v <= max,
            scan_digits(s@.subrange(start as int, i as int), max as nat) == Ok::<
                nat,
                IntErrorKind,
            >(v as nat),
        decreases s.len() - i,
    {
        let c = s[i];
        let ghost next = s@.subrange(start as int, i + 1);
        assert(next.drop_last() =~= s@.subrange(start as int, i as int));
        if !('0' <= c && c <= '9') {
            proof {
                assert(s@.skip(start as int).take(i - start + 1) =~= next);
                lemma_scan_prefix_err(s@.skip(start as int), (i - start) as int, max as nat);
            }
            return Err(IntErrorKind::InvalidDigit);
        }
        let d: u64 = ((c as u32) - 48) as u64;
        let nv: u64 = v * 10 + d;
        if nv > max as u64 {
            proof {
                assert(s@.skip(start as int).take(i - start + 1) =~= next);
                lemma_scan_prefix_err(s@.skip(start as int), (i - start) as int, max as nat);
            }
            return Err(IntErrorKind::PosOverflow);
        }
        v = nv;
        i += 1;
    }
    assert(s@.subrange(start as int, s.len() as int) =~= s@.skip(start as int));
    Ok(v as u32)
}

/// Once a prefix fails, the whole text fails the same way.
proof fn lemma_scan_prefix_err(s: Seq<char>, k: int, max: nat)
    requires
        0 <= k < s.len(),
        scan_digits(s.take(k + 1), max) is Err,
    ensures
        scan_digits(s, max) == scan_digits(s.take(k + 1), max),
    decreases s.len(),
{
    if k + 1 < s.len() {
        assert(s.drop_last().take(k + 1) =~= s.take(k + 1));
        lemma_scan_prefix_err(s.drop_last(), k, max);
    } else {
        assert(s.take(k + 1) =~= s);
    }
}

/// Reads an unsigned integer no greater than `max` the way `str::parse` does
/// for an unsigned type whose largest value is `max`.
pub fn parse_uint_max(s: &Vec<char>, max: u32) -> (r: Result<u32, IntErrorKind>)
    ensures
        match r {
            Ok(v) => parse_uint(s@, max as nat) == Ok::<nat, IntErrorKind>(v as nat),
            Err(e) => parse_uint(s@, max as nat) == Err::<nat, IntErrorKind>(e),
        },
{
    if s.len() == 0 {
        return Err(IntErrorKind::Empty);
    }
    if s.len() == 1 && (s[0] == '+' || s[0] == '-') {
        assert(s@ =~= seq![s@[0]]);
        return Err(IntErrorKind::InvalidDigit);
    }
    assert(s@ != seq!['+'] && s@ != seq!['-']) by {
        if s@ == seq!['+'] || s@ == seq!['-'] {
            assert(s@.len() == 1);
        }
    }
    if s[0] == '+' {
        assert(s@.skip(1) =~= s@.drop_first());
        scan_from(s, 1, max)
    } else {
        assert(s@.skip(0) =~= s@);
        scan_from(s, 0, max)
    }
}

/// The decimal digits of `n`, without leading zeros.
pub open spec fn dec(n: nat) -> Seq<char>
    decreases n,
{
    if n < 10 {
        seq![digit_char(n)]
    } else {
        dec(n / 10).push(digit_char(n % 10))
    }
}

/// Appends the decimal digits of `n` to `out`.
pub fn push_dec(out: &mut Vec<char>, n: u32)
    ensures
        final(out)@ == old(out)@ + dec(n as nat),
    decreases n,
{
    if n >= 10 {
        push_dec(out, n / 10);
    }
    let d: u8 = (n % 10) as u8;
    out.push((d + 48) as char);
    assert(old(out)@ + dec(n as nat) =~= (if n >= 10 {
        old(out)@ + dec((n / 10) as nat)
    } else {
        old(out)@
    }).push(digit_char((n % 10) as nat)));
}

// ---------------------------------------------------------------------------
// Splitting on a separator.
// ---------------------------------------------------------------------------

/// The pieces of `s` between occurrences of `sep` (as `str::split` gives
/// them): one more piece than there are separators, some possibly empty.
pub open spec fn split_on(s: Seq<char>, sep: char) -> Seq<Seq<char>>
    decreases s.len(),
{
    if s.len() == 0 {
        seq![seq![]]
    } else {
        let prev = split_on(s.drop_last(), sep);
        if s.last() == sep {
            prev.push(seq![])
        } else {
            prev.update(prev.len() - 1, prev.last().push(s.last()))
        }
    }
}

proof fn lemma_split_on_len(s: Seq<char>, sep: char)
    ensures
        split_on(s, sep).len() >= 1,
    decreases s.len(),
{
    if s.len() > 0 {
        lemma_split_on_len(s.drop_last(), sep);
    }
}

/// The pieces of `s` between occurrences of `sep`.
pub fn split_char(s: &Vec<char>, sep: char) -> (r: Vec<Vec<char>>)
    ensures
        views(r@) == split_on(s@, sep),
{
    let mut parts: Vec<Vec<char>> = Vec::new();
    let mut cur: Vec<char> = Vec::new();
    let mut i: usize = 0;
    while i < s.len()
        invariant
            i <= s.len(),
            split_on(s@.take(i as int), sep) == views(parts@).push(cur@),
        decreases s.len() - i,
    {
        let c = s[i];
        let ghost pre = s@.take(i as int);
        let ghost next = s@.take(i + 1);
        assert(next.drop_last() =~= pre);
        proof {
            lemma_split_on_len(pre, sep);
        }
        if c == sep {
            let t = cur;
            parts.push(t);
            cur = Vec::new();
            assert(split_on(next, sep) =~= views(parts@).push(cur@));
        } else {
            cur.push(c);
            assert(split_on(next, sep) =~= views(parts@).push(cur@));
        }
        i += 1;
    }
    parts.push(cur);
    assert(s@.take(s.len() as int) =~= s@);
    assert(views(parts@) =~= split_on(s@, sep));
    parts
}

/// The index of the first occurrence of `c` in `s`, if there is one.
pub open spec fn first_index(s: Seq<char>, c: char) -> Option<int>
    decreases s.len(),
{
    if s.len() == 0 {
        None
    } else {
        match first_index(s.drop_last(), c) {
            Some(i) => Some(i),
            None => if s.last() == c {
                Some(s.len() - 1)
            } else {
                None
            },
        }
    }
}

pub proof fn lemma_first_index(s: Seq<char>, c: char)
    ensures
        match first_index(s, c) {
            Some(i) => 0 <= i < s.len() && s[i] == c && forall|j: int|
                0 <= j < i ==> s[j] != c,
            None => forall|j: int| 0 <= j < s.len() ==> s[j] != c,
        },
    decreases s.len(),
{
    if s.len() > 0 {
        let p = s.drop_last();
        lemma_first_index(p, c);
        assert forall|j: int| 0 <= j < p.len() implies p[j] == s[j] by {}
    }
}

/// Finds the first occurrence of `c` in `s`.
pub fn find_char(s: &Vec<char>, c: char) -> (r: Option<usize>)
    ensures
        match r {
            Some(i) => first_index(s@, c) == Some(i as int) && i < s.len(),
            None => first_index(s@, c) is None,
        },
{
    let mut i: usize = 0;
    while i < s.len()
        invariant
            i <= s.len(),
            first_index(s@.take(i as int), c) is None,
        decreases s.len() - i,
    {
        let ghost next = s@.take(i + 1);
        assert(next.drop_last() =~= s@.take(i as int));
        if s[i] == c {
            proof {
                lemma_first_index_prefix(s@, i as int + 1, c);
            }
            return Some(i);
        }
        i += 1;
    }
    assert(s@.take(s.len() as int) =~= s@);
    None
}

/// The first occurrence found in a prefix is the first occurrence overall.
proof fn lemma_first_index_prefix(s: Seq<char>, k: int, c: char)
    requires
        0 <= k <= s.len(),
        first_index(s.take(k), c) is Some,
    ensures
        first_index(s, c) == first_index(s.take(k), c),
    decreases s.len(),
{
    if k < s.len() {
        assert(s.drop_last().take(k) =~= s.take(k));
        lemma_first_index_prefix(s.drop_last(), k, c);
    } else {
        assert(s.take(k) =~= s);
    }
}

// ---------------------------------------------------------------------------
// IPv4 addresses in dotted-quad form.
// ---------------------------------------------------------------------------

/// One field of a dotted quad: one to three digits, no leading zero, at most
/// 255. Octal-looking fields such as `01` are refused, as
/// `std::net::Ipv4Addr` refuses them.
pub open spec fn octet_ok(p: Seq<char>) -> bool {
    &&& 1 <= p.len() <= 3
    &&& forall|i: int| 0 <= i < p.len() ==> is_digit(#[trigger] p[i])
    &&& !(p.len() > 1 && p[0] == '0')
    &&& scan_digits(p, 255) is Ok
}

pub open spec fn octet_val(p: Seq<char>) -> nat {
    match scan_digits(p, 255) {
        Ok(v) => v,
        Err(_) => 0,
    }
}

/// The address that a dotted quad names, as a number in network order; `None`
/// where `std::net::Ipv4Addr` would not parse the text.
pub open spec fn parse_ipv4(s: Seq<char>) -> Option<u32> {
    let parts = split_on(s, '.');
    if parts.len() == 4 && octet_ok(parts[0]) && octet_ok(parts[1]) && octet_ok(parts[2])
        && octet_ok(parts[3]) {
        Some(
            (octet_val(parts[0]) * 0x1000000 + octet_val(parts[1]) * 0x10000 + octet_val(parts[2])
                * 0x100 + octet_val(parts[3])) as u32,
        )
    } else {
        None
    }
}

proof fn lemma_scan_digits_all_digits(p: Seq<char>, max: nat)
    requires
        scan_digits(p, max) is Ok,
    ensures
        forall|i: int| 0 <= i < p.len() ==> is_digit(#[trigger] p[i]),
    decreases p.len(),
{
    if p.len() > 0 {
        lemma_scan_digits_all_digits(p.drop_last(), max);
        assert forall|i: int| 0 <= i < p.len() implies is_digit(#[trigger] p[i]) by {
            if i < p.len() - 1 {
                assert(p.drop_last()[i] == p[i]);
            }
        }
    }
}

/// The value of one dotted-quad field, or `None` if it is not one.
fn octet_value(p: &Vec<char>) -> (r: Option<u32>)
    ensures
        match r {
            Some(v) => octet_ok(p@) && v == octet_val(p@),
            None => !octet_ok(p@),
        },
{
    if p.len() == 0 || p.len() > 3 {
        return None;
    }
    if p.len() > 1 && p[0] == '0' {
        return None;
    }
    assert(p@.skip(0) =~= p@);
    match scan_from(p, 0, 255) {
        Ok(v) => {
            proof {
                lemma_scan_digits_all_digits(p@, 255);
            }
            Some(v)
        },
        Err(_) => None,
    }
}

/// Parses a dotted-quad IPv4 address into its value in network order.
pub fn parse_ipv4_addr(s: &Vec<char>) -> (r: Option<u32>)
    ensures
        match r {
            Some(a) => parse_ipv4(s@) == Some(a),
            None => parse_ipv4(s@) is None,
        },
{
    let parts = split_char(s, '.');
    if parts.len() != 4 {
        return None;
    }
    assert(parts@[0]@ == split_on(s@, '.')[0]);
    assert(parts@[1]@ == split_on(s@, '.')[1]);
    assert(parts@[2]@ == split_on(s@, '.')[2]);
    assert(parts@[3]@ == split_on(s@, '.')[3]);
    let a = match octet_value(&parts[0]) {
        Some(v) => v,
        None => return None,
    };
    let b = match octet_value(&parts[1]) {
        Some(v) => v,
        None => return None,
    };
    let c = match octet_value(&parts[2]) {
        Some(v) => v,
        None => return None,
    };
    let d = match octet_value(&parts[3]) {
        Some(v) => v,
        None => return None,
    };
    Some(a * 0x1000000 + b * 0x10000 + c * 0x100 + d)
}

/// The dotted-quad text of an address given in network order, as
/// `std::net::Ipv4Addr` displays it.
pub open spec fn ipv4_text(a: u32) -> Seq<char> {
    dec((a / 0x1000000) as nat) + seq!['.'] + dec(((a / 0x10000) % 0x100) as nat) + seq!['.']
        + dec(((a / 0x100) % 0x100) as nat) + seq!['.'] + dec((a % 0x100) as nat)
}

/// Appends the dotted-quad text of `a` to `out`.
pub fn push_ipv4(out: &mut Vec<char>, a: u32)
    ensures
        final(out)@ == old(out)@ + ipv4_text(a),
{
    push_dec(out, a / 0x1000000);
    out.push('.');
    push_dec(out, (a / 0x10000) % 0x100);
    out.push('.');
    push_dec(out, (a / 0x100) % 0x100);
    out.push('.');
    push_dec(out, a % 0x100);
    assert(final(out)@ =~= old(out)@ + ipv4_text(a));
}

/// How `core::num::ParseIntError` describes each kind of failure.
pub open spec fn int_error_text(k: IntErrorKind) -> Seq<char> {
    match k {
        IntErrorKind::Empty => "cannot parse integer from empty string"@,
        IntErrorKind::InvalidDigit => "invalid digit found in string"@,
        IntErrorKind::PosOverflow => "number too large to fit in target type"@,
    }
}

pub fn push_int_error(out: &mut Vec<char>, k: IntErrorKind)
    ensures
        final(out)@ == old(out)@ + int_error_text(k),
{
    match k {
        IntErrorKind::Empty => push_str(out, "cannot parse integer from empty string"),
        IntErrorKind::InvalidDigit => push_str(out, "invalid digit found in string"),
        IntErrorKind::PosOverflow => push_str(out, "number too large to fit in target type"),
    }
}

// ---------------------------------------------------------------------------
// Printing and reading back numbers and addresses.
// ---------------------------------------------------------------------------

proof fn lemma_digit_char(d: nat)
    requires
        d < 10,
    ensures
        is_digit(digit_char(d)),
        digit_val(digit_char(d)) == d,
        digit_char(d) != '+',
        (digit_char(d) == '0') == (d == 0),
{
}

proof fn lemma_char_digit(c: char)
    requires
        is_digit(c),
    ensures
        digit_val(c) < 10,
        digit_char(digit_val(c)) == c,
{
}

/// The digits of a number: at least one, all decimal digits, no leading
/// zero, and they read back as the number.
pub proof fn lemma_dec(n: nat, max: nat)
    ensures
        dec(n).len() >= 1,
        forall|i: int| 0 <= i < dec(n).len() ==> is_digit(#[trigger] dec(n)[i]),
        n >= 10 ==> dec(n)[0] != '0',
        n < 10 ==> dec(n).len() == 1,
        10 <= n < 100 ==> dec(n).len() == 2,
        100 <= n < 1000 ==> dec(n).len() == 3,
        n <= max ==> scan_digits(dec(n), max) == Ok::<nat, IntErrorKind>(n),
    decreases n,
{
    lemma_digit_char(n % 10);
    if n >= 10 {
        lemma_dec(n / 10, max);
        let p = dec(n / 10);
        let d = dec(n);
        assert(d.drop_last() =~= p);
        assert forall|i: int| 0 <= i < d.len() implies is_digit(#[trigger] d[i]) by {
            if i < p.len() {
                assert(d[i] == p[i]);
            }
        }
        assert(d[0] == p[0]);
        if n / 10 < 10 {
            lemma_digit_char(n / 10);
        }
    }
}

/// Printing a number and reading it back gives the number.
pub proof fn lemma_parse_dec(n: nat, max: nat)
    requires
        n <= max,
    ensures
        parse_uint(dec(n), max) == Ok::<nat, IntErrorKind>(n),
{
    lemma_dec(n, max);
    assert(dec(n)[0] != '+');
    assert(dec(n) != seq!['-']) by {
        if dec(n) == seq!['-'] {
            assert(is_digit(dec(n)[0]));
        }
    }
}

/// Joins pieces with a separator between each two.
pub open spec fn join_on(parts: Seq<Seq<char>>, sep: char) -> Seq<char>
    decreases parts.len(),
{
    if parts.len() <= 1 {
        if parts.len() == 1 {
            parts[0]
        } else {
            seq![]
        }
    } else {
        join_on(parts.drop_last(), sep) + seq![sep] + parts.last()
    }
}

proof fn lemma_join4(p0: Seq<char>, p1: Seq<char>, p2: Seq<char>, p3: Seq<char>, sep: char)
    ensures
        join_on(seq![p0, p1, p2, p3], sep) == p0 + seq![sep] + p1 + seq![sep] + p2 + seq![sep] + p3,
{
    let l1 = seq![p0];
    let l2 = seq![p0, p1];
    let l3 = seq![p0, p1, p2];
    let l4 = seq![p0, p1, p2, p3];
    assert(join_on(l1, sep) == p0);
    assert(l2.drop_last() =~= l1);
    assert(join_on(l2, sep) == p0 + seq![sep] + p1);
    assert(l3.drop_last() =~= l2);
    assert(join_on(l3, sep) == p0 + seq![sep] + p1 + seq![sep] + p2);
    assert(l4.drop_last() =~= l3);
    assert(join_on(l4, sep) == join_on(l3, sep) + seq![sep] + p3);
}

/// Splitting a text and joining the pieces with the separator gives the
/// text back.
pub proof fn lemma_join_split(s: Seq<char>, sep: char)
    ensures
        join_on(split_on(s, sep), sep) == s,
    decreases s.len(),
{
    if s.len() > 0 {
        let p = s.drop_last();
        lemma_join_split(p, sep);
        lemma_split_on_len(p, sep);
        let prev = split_on(p, sep);
        if s.last() == sep {
            assert(prev.push(seq![]).drop_last() =~= prev);
            assert(join_on(prev.push(seq![]), sep) =~= s);
        } else {
            let cur = prev.update(prev.len() - 1, prev.last().push(s.last()));
            assert(cur.last() == prev.last().push(s.last()));
            if prev.len() >= 2 {
                assert(cur.drop_last() =~= prev.drop_last());
                assert(join_on(cur, sep) == join_on(cur.drop_last(), sep) + seq![sep] + cur.last());
                assert(join_on(prev, sep) == join_on(prev.drop_last(), sep) + seq![sep]
                    + prev.last());
            } else {
                assert(cur[0] == prev[0].push(s.last()));
            }
            assert(join_on(cur, sep) =~= join_on(prev, sep).push(s.last()));
            assert(p.push(s.last()) =~= s);
        }
    } else {
        assert(split_on(s, sep) =~= seq![seq![]]);
    }
}

/// A text without the separator is a single piece, and appending one to a
/// text whose last piece it extends extends that piece.
proof fn lemma_split_on_append(p: Seq<char>, y: Seq<char>, sep: char)
    requires
        forall|i: int| 0 <= i < y.len() ==> y[i] != sep,
    ensures
        split_on(p + y, sep) == split_on(p, sep).update(
            split_on(p, sep).len() - 1,
            split_on(p, sep).last() + y,
        ),
    decreases y.len(),
{
    lemma_split_on_len(p, sep);
    if y.len() == 0 {
        assert(p + y =~= p);
        assert(split_on(p, sep).last() + y =~= split_on(p, sep).last());
        assert(split_on(p, sep).update(split_on(p, sep).len() - 1, split_on(p, sep).last())
            =~= split_on(p, sep));
    } else {
        let y0 = y.drop_last();
        lemma_split_on_append(p, y0, sep);
        assert((p + y).drop_last() =~= p + y0);
        assert((p + y).last() == y.last());
        let q = split_on(p, sep);
        let prev = split_on(p + y0, sep);
        assert(y.last() != sep);
        assert(prev == q.update(q.len() - 1, q.last() + y0));
        assert(prev.len() == q.len());
        assert(prev.last() == q.last() + y0);
        assert(split_on(p + y, sep) == prev.update(prev.len() - 1, prev.last().push(y.last())));
        assert((q.last() + y0).push(y.last()) =~= q.last() + y);
        assert(prev.update(prev.len() - 1, prev.last().push(y.last())) =~= q.update(
            q.len() - 1,
            q.last() + y,
        ));
    }
}

proof fn lemma_split_dotted(parts: Seq<Seq<char>>, sep: char)
    requires
        parts.len() >= 1,
        forall|k: int, i: int| 0 <= k < parts.len() && 0 <= i < parts[k].len() ==> #[trigger] parts[k][i] != sep,
    ensures
        split_on(join_on(parts, sep), sep) == parts,
    decreases parts.len(),
{
    if parts.len() == 1 {
        lemma_split_on_append(seq![], parts[0], sep);
        assert(seq![] + parts[0] =~= parts[0]);
        assert(split_on(Seq::<char>::empty(), sep) =~= seq![seq![]]);
        assert(seq![seq![]].update(0, Seq::<char>::empty() + parts[0]) =~= parts);
    } else {
        let front = parts.drop_last();
        lemma_split_dotted(front, sep);
        let j = join_on(front, sep);
        assert(split_on(j.push(sep), sep) == split_on(j, sep).push(seq![])) by {
            assert(j.push(sep).drop_last() =~= j);
        }
        assert(forall|i: int| 0 <= i < parts.last().len() ==> parts.last()[i] != sep) by {
            assert forall|i: int| 0 <= i < parts.last().len() implies parts.last()[i] != sep by {
                assert(parts[parts.len() - 1][i] != sep);
            }
        }
        lemma_split_on_append(j.push(sep), parts.last(), sep);
        assert(j + seq![sep] + parts.last() =~= j.push(sep) + parts.last());
        let q = front.push(seq![]);
        assert(q.update(q.len() - 1, q.last() + parts.last()) =~= parts);
    }
}

/// Printing an address in dotted-quad form and parsing it gives the address.
pub proof fn lemma_parse_ipv4_text(a: u32)
    ensures
        parse_ipv4(ipv4_text(a)) == Some(a),
{
    let v0 = (a / 0x1000000) as nat;
    let v1 = ((a / 0x10000) % 0x100) as nat;
    let v2 = ((a / 0x100) % 0x100) as nat;
    let v3 = (a % 0x100) as nat;
    assert(v0 <= 255 && v1 <= 255 && v2 <= 255 && v3 <= 255);
    lemma_parse_dotted_quad(v0, v1, v2, v3);
    assert(ipv4_text(a) =~= dec(v0) + seq!['.'] + dec(v1) + seq!['.'] + dec(v2) + seq!['.'] + dec(
        v3,
    ));
    assert(a as nat == v0 * 0x1000000 + v1 * 0x10000 + v2 * 0x100 + v3) by (nonlinear_arith)
        requires
            v0 == (a / 0x1000000) as nat,
            v1 == ((a / 0x10000) % 0x100) as nat,
            v2 == ((a / 0x100) % 0x100) as nat,
            v3 == (a % 0x100) as nat,
    ;
}

/// Four numbers up to 255 written in decimal and joined by dots read as
/// the address whose octets they are, the first the most significant.
pub proof fn lemma_parse_dotted_quad(v0: nat, v1: nat, v2: nat, v3: nat)
    requires
        v0 <= 255,
        v1 <= 255,
        v2 <= 255,
        v3 <= 255,
    ensures
        parse_ipv4(dec(v0) + seq!['.'] + dec(v1) + seq!['.'] + dec(v2) + seq!['.'] + dec(v3))
            == Some((v0 * 0x1000000 + v1 * 0x10000 + v2 * 0x100 + v3) as u32),
{
    lemma_dec(v0, 255);
    lemma_dec(v1, 255);
    lemma_dec(v2, 255);
    lemma_dec(v3, 255);
    let parts = seq![dec(v0), dec(v1), dec(v2), dec(v3)];
    assert(join_on(parts, '.') =~= dec(v0) + seq!['.'] + dec(v1) + seq!['.'] + dec(v2) + seq!['.']
        + dec(v3)) by {
        lemma_join4(dec(v0), dec(v1), dec(v2), dec(v3), '.');
    }
    assert forall|k: int, i: int| 0 <= k < parts.len() && 0 <= i < parts[k].len() implies #[trigger] parts[k][i] != '.' by {
        assert(is_digit(parts[k][i]));
    }
    lemma_split_dotted(parts, '.');
    assert(octet_val(dec(v0)) == v0);
    assert(octet_val(dec(v1)) == v1);
    assert(octet_val(dec(v2)) == v2);
    assert(octet_val(dec(v3)) == v3);
}

/// A valid dotted-quad field is the printed form of its value.
proof fn lemma_octet_canonical(p: Seq<char>)
    requires
        octet_ok(p),
    ensures
        dec(octet_val(p)) == p,
{
    let c0 = p[0];
    lemma_char_digit(c0);
    if p.len() == 1 {
        assert(p.drop_last() =~= Seq::<char>::empty());
        assert(scan_digits(Seq::<char>::empty(), 255) == Ok::<nat, IntErrorKind>(0));
        assert(scan_digits(p, 255) == Ok::<nat, IntErrorKind>(digit_val(c0)));
        assert(dec(digit_val(c0)) =~= p);
    } else if p.len() == 2 {
        let c1 = p[1];
        lemma_char_digit(c1);
        assert(p.drop_last() =~= seq![c0]);
        assert(seq![c0].drop_last() =~= Seq::<char>::empty());
        assert(scan_digits(Seq::<char>::empty(), 255) == Ok::<nat, IntErrorKind>(0));
        assert(scan_digits(seq![c0], 255) == Ok::<nat, IntErrorKind>(digit_val(c0)));
        let v = digit_val(c0) * 10 + digit_val(c1);
        assert(scan_digits(p, 255) == Ok::<nat, IntErrorKind>(v));
        assert(digit_val(c0) >= 1);
        assert(v / 10 == digit_val(c0) && v % 10 == digit_val(c1));
        assert(dec(v) =~= p);
    } else {
        let c1 = p[1];
        let c2 = p[2];
        lemma_char_digit(c1);
        lemma_char_digit(c2);
        assert(p.drop_last() =~= seq![c0, c1]);
        assert(seq![c0, c1].drop_last() =~= seq![c0]);
        assert(seq![c0].drop_last() =~= Seq::<char>::empty());
        let w = digit_val(c0) * 10 + digit_val(c1);
        let v = w * 10 + digit_val(c2);
        assert(scan_digits(Seq::<char>::empty(), 255) == Ok::<nat, IntErrorKind>(0));
        assert(scan_digits(seq![c0], 255) == Ok::<nat, IntErrorKind>(digit_val(c0)));
        assert(scan_digits(seq![c0, c1], 255) == Ok::<nat, IntErrorKind>(w));
        assert(scan_digits(p, 255) == Ok::<nat, IntErrorKind>(v));
        assert(digit_val(c0) >= 1);
        assert(v / 10 == w && v % 10 == digit_val(c2));
        assert(w / 10 == digit_val(c0) && w % 10 == digit_val(c1));
        assert(dec(w) =~= seq![c0, c1]);
        assert(dec(v) =~= p);
    }
}

/// A text that parses as an address is that address's dotted-quad form:
/// printing the parsed address gives the text back.
pub proof fn lemma_ipv4_text_of_parse(s: Seq<char>)
    requires
        parse_ipv4(s) is Some,
    ensures
        ipv4_text(parse_ipv4(s)->Some_0) == s,
{
    let parts = split_on(s, '.');
    let v0 = octet_val(parts[0]);
    let v1 = octet_val(parts[1]);
    let v2 = octet_val(parts[2]);
    let v3 = octet_val(parts[3]);
    lemma_scan_bound(parts[0], 255);
    lemma_scan_bound(parts[1], 255);
    lemma_scan_bound(parts[2], 255);
    lemma_scan_bound(parts[3], 255);
    lemma_octet_canonical(parts[0]);
    lemma_octet_canonical(parts[1]);
    lemma_octet_canonical(parts[2]);
    lemma_octet_canonical(parts[3]);
    let a = parse_ipv4(s)->Some_0;
    assert(a as nat == v0 * 0x1000000 + v1 * 0x10000 + v2 * 0x100 + v3);
    assert((a / 0x1000000) as nat == v0 && ((a / 0x10000) % 0x100) as nat == v1 && ((a / 0x100)
        % 0x100) as nat == v2 && (a % 0x100) as nat == v3) by (nonlinear_arith)
        requires
            a as nat == v0 * 0x1000000 + v1 * 0x10000 + v2 * 0x100 + v3,
            v0 <= 255,
            v1 <= 255,
            v2 <= 255,
            v3 <= 255,
    ;
    lemma_join_split(s, '.');
    assert(parts =~= seq![parts[0], parts[1], parts[2], parts[3]]);
    lemma_join4(parts[0], parts[1], parts[2], parts[3], '.');
    assert(ipv4_text(a) =~= join_on(parts, '.'));
}

} // verus!
