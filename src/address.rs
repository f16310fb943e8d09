//! Server addresses, IPv4 and IPv6, and their text forms.
use vstd::prelude::*;
use crate::text::{chars_of, push_char};

verus! {

/// The network address of a plugin's update server.
#[derive(Clone, Copy, Debug, PartialEq, Eq)]
pub enum ServerAddress {
    /// Four octets.
    V4([u8; 4]),
    /// Eight 16-bit groups.
    V6([u16; 8]),
}

pub open spec fn is_digit(c: char) -> bool {
    '0' <= c && c <= '9'
}

pub open spec fn digit_value(c: char) -> nat {
    (c as u32 - '0' as u32) as nat
}

pub open spec fn digit_char(d: nat) -> char {
    if d == 0 { '0' }
    else if d == 1 { '1' }
    else if d == 2 { '2' }
    else if d == 3 { '3' }
    else if d == 4 { '4' }
    else if d == 5 { '5' }
    else if d == 6 { '6' }
    else if d == 7 { '7' }
    else if d == 8 { '8' }
    else { '9' }
}

/// Decimal text of `n`, without leading zeros.
pub open spec fn dec_text(n: nat) -> Seq<char>
    decreases n,
{
    if n < 10 {
        seq![digit_char(n)]
    } else {
        dec_text(n / 10).push(digit_char(n % 10))
    }
}

/// The number that a string of decimal digits denotes.
pub open spec fn value_of(s: Seq<char>) -> nat
    decreases s.len(),
{
    if s.len() == 0 {
        0
    } else {
        value_of(s.drop_last()) * 10 + digit_value(s.last())
    }
}

/// The octets in decimal, separated by dots.
pub open spec fn groups_text(o: Seq<u8>) -> Seq<char>
    decreases o.len(),
{
    if o.len() == 0 {
        Seq::empty()
    } else if o.len() == 1 {
        dec_text(o[0] as nat)
    } else {
        groups_text(o.drop_last()) + seq!['.'] + dec_text(o.last() as nat)
    }
}

/// The dotted-decimal text of four octets (`192.168.0.1`).
pub open spec fn v4_text(o: [u8; 4]) -> Seq<char> {
    groups_text(o@)
}

pub open spec fn hex_char(d: nat) -> char {
    if d < 10 {
        digit_char(d)
    } else if d == 10 {
        'a'
    } else if d == 11 {
        'b'
    } else if d == 12 {
        'c'
    } else if d == 13 {
        'd'
    } else if d == 14 {
        'e'
    } else {
        'f'
    }
}

/// Lower-case hexadecimal text of `n`, without leading zeros.
pub open spec fn hex_text(n: nat) -> Seq<char>
    decreases n,
{
    if n < 16 {
        seq![hex_char(n)]
    } else {
        hex_text(n / 16).push(hex_char(n % 16))
    }
}

/// The groups in hexadecimal, separated by colons.
pub open spec fn hex_join(g: Seq<u16>) -> Seq<char>
    decreases g.len(),
{
    if g.len() == 0 {
        Seq::empty()
    } else if g.len() == 1 {
        hex_text(g[0] as nat)
    } else {
        hex_join(g.drop_last()) + seq![':'] + hex_text(g.last() as nat)
    }
}

/// An IPv6 text form of the groups: all of them where `lo == hi`; else
/// those before `lo` and those from `hi` on, with `::` standing for the
/// groups between.
pub open spec fn v6_form(g: Seq<u16>, lo: int, hi: int) -> Seq<char> {
    if lo == hi {
        hex_join(g)
    } else {
        hex_join(g.subrange(0, lo)) + seq![':', ':'] + hex_join(g.subrange(hi, g.len() as int))
    }
}

/// `s` writes the eight groups `g`, where `::` may stand for one run of zero
/// groups.
pub open spec fn v6_denotes(s: Seq<char>, g: Seq<u16>) -> bool {
    &&& g.len() == 8
    &&& exists|lo: int, hi: int|
        0 <= lo <= hi <= 8 && (forall|i: int| lo <= i < hi ==> g[i] == 0) && s == #[trigger] v6_form(
            g,
            lo,
            hi,
        )
}

/// The text that this library writes for an address: dotted decimal for
/// IPv4, all eight groups for IPv6.
pub open spec fn address_text(a: ServerAddress) -> Seq<char> {
    match a {
        ServerAddress::V4(o) => v4_text(o),
        ServerAddress::V6(g) => hex_join(g@),
    }
}

pub open spec fn all_digits(s: Seq<char>) -> bool {
    forall|j: int| 0 <= j < s.len() ==> is_digit(#[trigger] s[j])
}

/// `s[start..e]` is a run of one to three digits that ends at `e`.
pub open spec fn octet_run(s: Seq<char>, start: int, e: int) -> bool {
    &&& 0 <= start < e <= s.len()
    &&& e - start <= 3
    &&& all_digits(s.subrange(start, e))
    &&& (e == s.len() || !is_digit(s[e]))
}

proof fn lemma_digit_char(d: nat)
    requires
        d < 10,
    ensures
        is_digit(digit_char(d)),
        digit_value(digit_char(d)) == d,
{
}

proof fn lemma_dec_text(n: nat)
    ensures
        all_digits(dec_text(n)),
        value_of(dec_text(n)) == n,
        1 <= dec_text(n).len(),
        n < 10 ==> dec_text(n).len() == 1,
        n < 100 ==> dec_text(n).len() <= 2,
        n < 1000 ==> dec_text(n).len() <= 3,
    decreases n,
{
    if n < 10 {
        lemma_digit_char(n);
        let t = dec_text(n);
        assert(t.drop_last() =~= Seq::<char>::empty());
        assert(value_of(t.drop_last()) == 0);
        assert(t.last() == digit_char(n));
        assert(value_of(t) == value_of(t.drop_last()) * 10 + digit_value(t.last()));
    } else {
        lemma_dec_text(n / 10);
        lemma_digit_char(n % 10);
        let t = dec_text(n);
        assert(t.drop_last() =~= dec_text(n / 10));
        assert(t.last() == digit_char(n % 10));
        assert((n / 10) * 10 + n % 10 == n) by (nonlinear_arith);
        assert(value_of(t) == value_of(t.drop_last()) * 10 + digit_value(t.last()));
        assert forall|j: int| 0 <= j < t.len() implies is_digit(#[trigger] t[j]) by {
            if j < t.len() - 1 {
                assert(t[j] == dec_text(n / 10)[j]);
            }
        }
    }
}

proof fn lemma_unique_run(s: Seq<char>, start: int, e1: int, e2: int)
    requires
        octet_run(s, start, e1),
        octet_run(s, start, e2),
    ensures
        e1 == e2,
{
    if e1 < e2 {
        assert(s.subrange(start, e2)[e1 - start] == s[e1]);
    } else if e2 < e1 {
        assert(s.subrange(start, e1)[e2 - start] == s[e2]);
    }
}

/// With `0 < j < o.len()`, the text of `o` starts with the text of its first
/// `j` octets and a dot.
proof fn lemma_groups_prefix(o: Seq<u8>, j: int)
    requires
        0 < j < o.len(),
    ensures
        groups_text(o.take(j)).len() < groups_text(o).len(),
        groups_text(o).subrange(0, groups_text(o.take(j)).len() as int) == groups_text(o.take(j)),
        groups_text(o)[groups_text(o.take(j)).len() as int] == '.',
    decreases o.len(),
{
    let p = o.drop_last();
    assert(o.take(j) =~= p.take(j));
    if j < p.len() {
        lemma_groups_prefix(p, j);
    } else {
        assert(p.take(j) =~= p);
    }
    let g = groups_text(o);
    let gp = groups_text(p);
    assert(g == gp + seq!['.'] + dec_text(o.last() as nat));
    assert(g.subrange(0, gp.len() as int) =~= gp);
    if j < p.len() {
        let t = groups_text(o.take(j));
        assert(g.subrange(0, t.len() as int) =~= gp.subrange(0, t.len() as int));
        assert(g[t.len() as int] == gp[t.len() as int]);
    }
}

/// The text of the first `k + 1` octets: that of the first `k`, a dot when
/// `k > 0`, and the decimal text of octet `k`.
proof fn lemma_groups_step(o: Seq<u8>, k: int)
    requires
        0 <= k < o.len(),
    ensures
        k == 0 ==> groups_text(o.take(k + 1)) == dec_text(o[k] as nat),
        k > 0 ==> groups_text(o.take(k + 1)) == groups_text(o.take(k)) + seq!['.'] + dec_text(
            o[k] as nat,
        ),
        groups_text(o.take(0)) == Seq::<char>::empty(),
{
    assert(o.take(k + 1).drop_last() =~= o.take(k));
    assert(o.take(0) =~= Seq::<u8>::empty());
}

/// Where the text of octet `k` starts: after the text of the octets before
/// it and a dot.
pub open spec fn group_start(o: Seq<u8>, k: int) -> int {
    if k == 0 {
        0
    } else {
        groups_text(o.take(k)).len() + 1int
    }
}

/// In the text of four octets, octet `k` stands as a run of digits from
/// `group_start(o, k)` to the end of the text of the first `k + 1` octets,
/// and denotes the octet.
proof fn lemma_group_run(o: Seq<u8>, k: int)
    requires
        o.len() == 4,
        0 <= k < 4,
    ensures
        ({
            let s = groups_text(o);
            let e = groups_text(o.take(k + 1)).len() as int;
            &&& octet_run(s, group_start(o, k), e)
            &&& value_of(s.subrange(group_start(o, k), e)) == o[k]
            &&& k > 0 ==> s[group_start(o, k) - 1] == '.'
        }),
{
    let s = groups_text(o);
    let n = o[k] as nat;
    let st = group_start(o, k);
    lemma_groups_step(o, k);
    lemma_dec_text(n);
    let g = groups_text(o.take(k + 1));
    let e = g.len() as int;
    assert(e == st + dec_text(n).len());
    if k > 0 {
        lemma_groups_prefix(o, k);
    }
    if k + 1 < 4 {
        lemma_groups_prefix(o, k + 1);
    } else {
        assert(o.take(k + 1) =~= o);
    }
    assert(s.subrange(0, e) == g);
    assert(s.subrange(st, e) =~= dec_text(n)) by {
        assert(g.subrange(st, e) =~= dec_text(n));
        assert(s.subrange(st, e) =~= s.subrange(0, e).subrange(st, e));
    }
}

/// Reads the run of digits that starts at `start`.
fn parse_octet(s: &Vec<char>, start: usize) -> (r: Option<(u8, usize)>)
    requires
        start <= s@.len(),
    ensures
        match r {
            Some((v, e)) => octet_run(s@, start as int, e as int) && value_of(
                s@.subrange(start as int, e as int),
            ) == v,
            None => forall|e: int|
                #[trigger] octet_run(s@, start as int, e) ==> value_of(
                    s@.subrange(start as int, e),
                ) > 255,
        },
{
    let mut i: usize = start;
    let mut acc: u32 = 0;
    while i < s.len() && '0' <= s[i] && s[i] <= '9' && i - start < 3
        invariant
            start <= i <= s@.len(),
            i - start <= 3,
            all_digits(s@.subrange(start as int, i as int)),
            acc == value_of(s@.subrange(start as int, i as int)),
            acc < 1000,
            i - start <= 2 ==> acc < 100,
            i - start <= 1 ==> acc < 10,
            i - start == 0 ==> acc == 0,
        decreases s@.len() - i,
    {
        let d = (s[i] as u32) - ('0' as u32);
        proof {
            let t = s@.subrange(start as int, i as int + 1);
            assert(t.drop_last() =~= s@.subrange(start as int, i as int));
            assert forall|j: int| 0 <= j < t.len() implies is_digit(#[trigger] t[j]) by {
                if j < t.len() - 1 {
                    assert(t[j] == s@.subrange(start as int, i as int)[j]);
                }
            }
        }
        acc = acc * 10 + d;
        i = i + 1;
    }
    if i == start {
        proof {
            assert forall|e: int| #[trigger] octet_run(s@, start as int, e) implies value_of(
                s@.subrange(start as int, e),
            ) > 255 by {
                assert(s@.subrange(start as int, e)[0] == s@[start as int]);
            }
        }
        return None;
    }
    if i < s.len() && '0' <= s[i] && s[i] <= '9' {
        proof {
            assert forall|e: int| #[trigger] octet_run(s@, start as int, e) implies value_of(
                s@.subrange(start as int, e),
            ) > 255 by {
                if e < i {
                    assert(s@.subrange(start as int, i as int)[e - start] == s@[e]);
                }
            }
        }
        return None;
    }
    if acc > 255 {
        proof {
            assert(octet_run(s@, start as int, i as int));
            assert forall|e: int| #[trigger] octet_run(s@, start as int, e) implies value_of(
                s@.subrange(start as int, e),
            ) > 255 by {
                lemma_unique_run(s@, start as int, e, i as int);
            }
        }
        return None;
    }
    Some((acc as u8, i))
}

/// Appends the decimal text of `n`.
fn push_decimal(out: &mut String, n: u8)
    ensures
        final(out)@ == old(out)@ + dec_text(n as nat),
{
    reveal_with_fuel(dec_text, 3);
    let d = digit_chars();
    if n >= 100 {
        push_char(out, d[(n / 100) as usize]);
        push_char(out, d[((n / 10) % 10) as usize]);
        push_char(out, d[(n % 10) as usize]);
    } else if n >= 10 {
        push_char(out, d[(n / 10) as usize]);
        push_char(out, d[(n % 10) as usize]);
    } else {
        push_char(out, d[n as usize]);
    }
    assert(final(out)@ =~= old(out)@ + dec_text(n as nat));
}

fn digit_chars() -> (r: [char; 10])
    ensures
        forall|d: int| 0 <= d < 10 ==> #[trigger] r@[d] == digit_char(d as nat),
{
    ['0', '1', '2', '3', '4', '5', '6', '7', '8', '9']
}

/// The dotted-decimal text of `a`.
fn format_v4(a: &[u8; 4]) -> (r: String)
    ensures
        r@ == v4_text(*a),
{
    let mut out = String::new();
    let mut k: usize = 0;
    while k < 4
        invariant
            k <= 4,
            out@ == groups_text(a@.take(k as int)),
        decreases 4 - k,
    {
        proof {
            lemma_groups_step(a@, k as int);
        }
        if k > 0 {
            push_char(&mut out, '.');
        }
        push_decimal(&mut out, a[k]);
        k = k + 1;
    }
    assert(a@.take(4) =~= a@);
    out
}

/// Reads an address in dotted-decimal form: four decimal octets of at most
/// three digits and no leading zero, separated by dots, and nothing else.
fn parse_v4(s: &str) -> (r: Option<[u8; 4]>)
    ensures
        match r {
            Some(a) => s@ == v4_text(a) && forall|b: [u8; 4]| #[trigger]
                v4_text(b) == s@ ==> b == a,
            None => forall|a: [u8; 4]| s@ != v4_text(a),
        },
{
    let chars = chars_of(s);
    let mut octets: [u8; 4] = [0, 0, 0, 0];
    let mut pos: usize = 0;
    let mut k: usize = 0;
    while k < 4
        invariant
            k <= 4,
            pos <= chars@.len(),
            chars@ == s@,
            forall|a: [u8; 4]| #[trigger] v4_text(a) == s@ ==> {
                &&& pos == groups_text(a@.take(k as int)).len()
                &&& forall|j: int| 0 <= j < k ==> octets@[j] == a@[j]
            },
        decreases 4 - k,
    {
        if k > 0 {
            if pos >= chars.len() || chars[pos] != '.' {
                proof {
                    assert forall|a: [u8; 4]| s@ != v4_text(a) by {
                        if s@ == v4_text(a) {
                            lemma_groups_prefix(a@, k as int);
                        }
                    }
                }
                return None;
            }
            pos = pos + 1;
        }
        let parsed = parse_octet(&chars, pos);
        proof {
            assert forall|a: [u8; 4]| #[trigger] v4_text(a) == s@ implies pos
                == group_start(a@, k as int) by {
                if k > 0 {
                    lemma_group_run(a@, k as int);
                }
            }
        }
        match parsed {
            None => {
                proof {
                    assert forall|a: [u8; 4]| s@ != v4_text(a) by {
                        if s@ == v4_text(a) {
                            lemma_group_run(a@, k as int);
                            let e = groups_text(a@.take(k + 1)).len() as int;
                            assert(octet_run(s@, pos as int, e));
                        }
                    }
                }
                return None;
            },
            Some((v, e)) => {
                proof {
                    assert forall|a: [u8; 4]| #[trigger] v4_text(a) == s@ implies {
                        &&& e == groups_text(a@.take(k + 1)).len()
                        &&& v == a@[k as int]
                    } by {
                        lemma_group_run(a@, k as int);
                        lemma_unique_run(
                            s@,
                            pos as int,
                            e as int,
                            groups_text(a@.take(k + 1)).len() as int,
                        );
                    }
                }
                octets[k] = v;
                pos = e;
            },
        }
        k = k + 1;
    }
    if pos != chars.len() {
        proof {
            assert forall|a: [u8; 4]| s@ != v4_text(a) by {
                if s@ == v4_text(a) {
                    assert(a@.take(4) =~= a@);
                }
            }
        }
        return None;
    }
    let candidate = octets;
    let text = format_v4(&candidate);
    let owned = s.to_owned();
    if text == owned {
        proof {
            assert forall|b: [u8; 4]| #[trigger] v4_text(b) == s@ implies b
                == candidate by {
                assert(b =~= candidate);
            }
        }
        Some(candidate)
    } else {
        proof {
            assert forall|a: [u8; 4]| s@ != v4_text(a) by {
                if s@ == v4_text(a) {
                    assert(a@ =~= candidate@);
                }
            }
        }
        None
    }
}


/// The text of a set of octets holds only digits and dots.
proof fn lemma_groups_chars(o: Seq<u8>)
    ensures
        forall|j: int|
            0 <= j < groups_text(o).len() ==> is_digit(#[trigger] groups_text(o)[j])
                || groups_text(o)[j] == '.',
    decreases o.len(),
{
    if o.len() == 1 {
        lemma_dec_text(o[0] as nat);
        assert forall|j: int| 0 <= j < groups_text(o).len() implies is_digit(
            #[trigger] groups_text(o)[j],
        ) by {
            assert(dec_text(o[0] as nat)[j] == groups_text(o)[j]);
        }
    } else if o.len() > 1 {
        lemma_groups_chars(o.drop_last());
        let d = dec_text(o.last() as nat);
        lemma_dec_text(o.last() as nat);
        let gp = groups_text(o.drop_last());
        let t = groups_text(o);
        assert(t == gp + seq!['.'] + d);
        assert forall|j: int| 0 <= j < t.len() implies is_digit(#[trigger] t[j]) || t[j] == '.' by {
            if j < gp.len() {
                assert(t[j] == gp[j]);
            } else if j > gp.len() {
                assert(t[j] == d[j - gp.len() - 1]);
            }
        }
    }
}

fn hex_chars() -> (r: [char; 16])
    ensures
        forall|d: int| 0 <= d < 16 ==> #[trigger] r@[d] == hex_char(d as nat),
{
    ['0', '1', '2', '3', '4', '5', '6', '7', '8', '9', 'a', 'b', 'c', 'd', 'e', 'f']
}

/// Appends the hexadecimal text of `n`.
fn push_hex(out: &mut String, n: u16)
    ensures
        final(out)@ == old(out)@ + hex_text(n as nat),
{
    reveal_with_fuel(hex_text, 4);
    let d = hex_chars();
    if n >= 4096 {
        push_char(out, d[(n / 4096) as usize]);
        push_char(out, d[((n / 256) % 16) as usize]);
        push_char(out, d[((n / 16) % 16) as usize]);
        push_char(out, d[(n % 16) as usize]);
    } else if n >= 256 {
        push_char(out, d[(n / 256) as usize]);
        push_char(out, d[((n / 16) % 16) as usize]);
        push_char(out, d[(n % 16) as usize]);
    } else if n >= 16 {
        push_char(out, d[(n / 16) as usize]);
        push_char(out, d[(n % 16) as usize]);
    } else {
        push_char(out, d[n as usize]);
    }
    assert(final(out)@ =~= old(out)@ + hex_text(n as nat));
}

/// Appends the groups `g[from..to]`, separated by colons.
fn push_hex_join(out: &mut String, g: &[u16; 8], from: usize, to: usize)
    requires
        from <= to <= 8,
    ensures
        final(out)@ == old(out)@ + hex_join(g@.subrange(from as int, to as int)),
{
    let ghost start = out@;
    let mut k: usize = from;
    assert(g@.subrange(from as int, from as int) =~= Seq::<u16>::empty());
    assert(out@ =~= start + hex_join(g@.subrange(from as int, from as int)));
    while k < to
        invariant
            from <= k <= to <= 8,
            out@ == start + hex_join(g@.subrange(from as int, k as int)),
        decreases to - k,
    {
        let ghost part = g@.subrange(from as int, k as int + 1);
        assert(part.drop_last() =~= g@.subrange(from as int, k as int));
        assert(part.last() == g@[k as int]);
        if k > from {
            push_char(out, ':');
        }
        push_hex(out, g[k]);
        proof {
            if k == from {
                assert(part.len() == 1);
                assert(hex_join(g@.subrange(from as int, k as int)) =~= Seq::<char>::empty());
            }
            assert(out@ =~= start + hex_join(part));
        }
        k = k + 1;
    }
}

/// The eight groups that std's IPv6 parser reads from a text, or `None`
/// where it refuses the text.
pub uninterp spec fn ipv6_of(s: Seq<char>) -> Option<[u16; 8]>;

/// Relies on `FromStr` for `core::net::Ipv6Addr` and on `Ipv6Addr::segments`:
/// the parser reads the text forms of RFC 4291, section 2.2, among them
/// eight groups of hexadecimal digits separated by colons, where `::` may
/// stand for one run of zero groups, and gives the groups it read.
#[verifier::external_body]
fn read_ipv6(s: &str) -> (r: Option<[u16; 8]>)
    ensures
        r == ipv6_of(s@),
        forall|g: [u16; 8]| #[trigger] v6_denotes(s@, g@) ==> r == Some(g),
{
    s.parse::<core::net::Ipv6Addr>().ok().map(|a| a.segments())
}

pub open spec fn has_colon(s: Seq<char>) -> bool {
    exists|j: int| 0 <= j < s.len() && s[j] == ':'
}

/// The address that a text gives: IPv4 in dotted decimal (four octets of at
/// most three digits, no leading zero); any text with a colon is read as
/// IPv6.
pub open spec fn read_address(s: Seq<char>) -> Option<ServerAddress> {
    if has_colon(s) {
        match ipv6_of(s) {
            Some(g) => Some(ServerAddress::V6(g)),
            None => None,
        }
    } else if exists|o: [u8; 4]| v4_text(o) == s {
        Some(ServerAddress::V4(choose|o: [u8; 4]| v4_text(o) == s))
    } else {
        None
    }
}

/// Every IPv6 text form holds a colon.
proof fn lemma_v6_form_colon(g: Seq<u16>, lo: int, hi: int)
    requires
        g.len() == 8,
        0 <= lo <= hi <= 8,
    ensures
        has_colon(v6_form(g, lo, hi)),
{
    let t = v6_form(g, lo, hi);
    if lo == hi {
        let p = hex_join(g.drop_last());
        assert(t == p + seq![':'] + hex_text(g.last() as nat));
        assert(t[p.len() as int] == ':');
    } else {
        let p = hex_join(g.subrange(0, lo));
        assert(t[p.len() as int] == ':');
    }
}

/// The text that this library writes for `a`.
pub fn format_address(a: &ServerAddress) -> (r: String)
    ensures
        r@ == address_text(*a),
{
    match a {
        ServerAddress::V4(o) => format_v4(o),
        ServerAddress::V6(g) => {
            let mut out = String::new();
            push_hex_join(&mut out, g, 0, 8);
            assert(g@.subrange(0, 8) =~= g@);
            out
        },
    }
}

/// Reads a server address: IPv4 in dotted decimal, IPv6 in any form that
/// std's parser takes. Every IPv4 text and every IPv6 text form of
/// `v6_denotes` gives exactly its address.
pub fn parse_address(s: &str) -> (r: Option<ServerAddress>)
    ensures
        r == read_address(s@),
        forall|o: [u8; 4]| #[trigger] v4_text(o) == s@ ==> r == Some(ServerAddress::V4(o)),
        forall|g: [u16; 8]| #[trigger] v6_denotes(s@, g@) ==> r == Some(ServerAddress::V6(g)),
{
    let chars = chars_of(s);
    let mut i: usize = 0;
    while i < chars.len()
        invariant
            i <= chars@.len(),
            chars@ == s@,
            forall|j: int| 0 <= j < i ==> chars@[j] != ':',
        decreases chars@.len() - i,
    {
        if chars[i] == ':' {
            proof {
                assert(s@[i as int] == ':');
                assert forall|o: [u8; 4]| #[trigger] v4_text(o) != s@ by {
                    lemma_groups_chars(o@);
                    if v4_text(o) == s@ {
                        assert(groups_text(o@)[i as int] == ':');
                    }
                }
            }
            return match read_ipv6(s) {
                Some(g) => Some(ServerAddress::V6(g)),
                None => None,
            };
        }
        i = i + 1;
    }
    proof {
        assert(!has_colon(s@));
        assert forall|g: [u16; 8]| !(#[trigger] v6_denotes(s@, g@)) by {
            if v6_denotes(s@, g@) {
                let (lo, hi) = choose|lo: int, hi: int|
                    0 <= lo <= hi <= 8 && (forall|i: int| lo <= i < hi ==> g@[i] == 0) && s@
                        == #[trigger] v6_form(g@, lo, hi);
                lemma_v6_form_colon(g@, lo, hi);
            }
        }
    }
    match parse_v4(s) {
        Some(o) => Some(ServerAddress::V4(o)),
        None => None,
    }
}

} // verus!
