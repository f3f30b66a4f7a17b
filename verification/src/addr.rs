//! Socket addresses as text: `127.0.0.1:7377`, `[::1]:7377`.

use crate::text;
use crate::text::Sep;
use vstd::prelude::*;

verus! {

/// An address of an interface.
#[derive(Debug, Clone, PartialEq)]
pub enum Ip {
    /// Four octets.
    V4(Vec<u16>),
    /// Eight groups.
    V6(Vec<u16>),
}

/// What an [`Ip`] says.
pub enum IpModel {
    V4(Seq<u16>),
    V6(Seq<u16>),
}

impl View for Ip {
    type V = IpModel;

    open spec fn view(&self) -> IpModel {
        match self {
            Ip::V4(o) => IpModel::V4(o@),
            Ip::V6(g) => IpModel::V6(g@),
        }
    }
}

/// An address to listen on.
#[derive(Debug, Clone, PartialEq)]
pub struct BindAddr {
    pub ip: Ip,
    /// The scope of an IPv6 address, zero where none is given.
    pub scope: u32,
    pub port: u16,
}

/// What a [`BindAddr`] says.
#[verifier::ext_equal]
pub struct AddrModel {
    pub ip: IpModel,
    pub scope: u32,
    pub port: u16,
}

impl DeepView for BindAddr {
    type V = AddrModel;

    open spec fn deep_view(&self) -> AddrModel {
        AddrModel { ip: self.ip@, scope: self.scope, port: self.port }
    }
}

// Numbers

/// The value of a hexadecimal digit.
pub open spec fn hex_digit(c: char) -> Option<nat> {
    if '0' <= c <= '9' {
        Some((c as int - 48) as nat)
    } else if 'a' <= c <= 'f' {
        Some((c as int - 87) as nat)
    } else if 'A' <= c <= 'F' {
        Some((c as int - 55) as nat)
    } else {
        None
    }
}

/// Whether every character is a hexadecimal digit.
pub open spec fn all_hex(s: Seq<char>) -> bool {
    forall|i: int| 0 <= i < s.len() ==> hex_digit(#[trigger] s[i]) is Some
}

/// The number that hexadecimal digits write down.
pub open spec fn hex_value(s: Seq<char>) -> nat
    decreases s.len(),
{
    if s.len() == 0 {
        0
    } else {
        hex_value(s.drop_last()) * 16 + hex_digit(s.last())->0
    }
}

/// One octet: one to three digits, no leading zero, at most 255.
pub open spec fn octet(s: Seq<char>) -> Option<u16> {
    if 1 <= s.len() <= 3 && text::all_digits(s) && (s.len() == 1 || s[0] != '0')
        && text::decimal_value(s) <= 255 {
        Some(text::decimal_value(s) as u16)
    } else {
        None
    }
}

/// One group: one to four hexadecimal digits.
pub open spec fn group(s: Seq<char>) -> Option<u16> {
    if 1 <= s.len() <= 4 && all_hex(s) {
        Some(hex_value(s) as u16)
    } else {
        None
    }
}

/// A decimal number of any number of digits, at most `max`.
pub open spec fn number(s: Seq<char>, max: nat) -> Option<nat> {
    if s.len() > 0 && text::all_digits(s) && text::decimal_value(s) <= max {
        Some(text::decimal_value(s))
    } else {
        None
    }
}

/// The values of all members, where each has one.
pub open spec fn octets(ps: Seq<Seq<char>>) -> Option<Seq<u16>> {
    if forall|i: int| 0 <= i < ps.len() ==> octet(#[trigger] ps[i]) is Some {
        Some(ps.map_values(|p: Seq<char>| octet(p)->0))
    } else {
        None
    }
}

/// The values of all members, where each has one.
pub open spec fn groups(ps: Seq<Seq<char>>) -> Option<Seq<u16>> {
    if forall|i: int| 0 <= i < ps.len() ==> group(#[trigger] ps[i]) is Some {
        Some(ps.map_values(|p: Seq<char>| group(p)->0))
    } else {
        None
    }
}

/// Four octets with points between them.
pub open spec fn v4(s: Seq<char>) -> Option<Seq<u16>> {
    let ps = text::split(s, Sep::One('.'));
    if ps.len() == 4 {
        octets(ps)
    } else {
        None
    }
}

/// Two octets as one group.
pub open spec fn pair(hi: u16, lo: u16) -> u16 {
    (hi * 256 + lo) as u16
}

/// Groups with colons between them, none for an empty text. Where `tail` is
/// set, the last two groups may be written as four octets.
pub open spec fn group_list(s: Seq<char>, tail: bool) -> Option<Seq<u16>> {
    let ps = text::split(s, Sep::One(':'));
    if s.len() == 0 {
        Some(Seq::empty())
    } else if groups(ps) is Some {
        groups(ps)
    } else if tail && groups(ps.drop_last()) is Some && v4(ps.last()) is Some {
        let o = v4(ps.last())->0;
        Some(groups(ps.drop_last())->0 + seq![pair(o[0], o[1]), pair(o[2], o[3])])
    } else {
        None
    }
}

/// Whether the first `::` stands at `i`.
pub open spec fn first_gap(s: Seq<char>, i: int) -> bool {
    text::occurs_at(s, "::"@, i) && forall|j: int| 0 <= j < i ==> !text::occurs_at(s, "::"@, j)
}

/// `n` groups of zero.
pub open spec fn zeros(n: int) -> Seq<u16> {
    Seq::new(n as nat, |i: int| 0u16)
}

/// Eight groups; `::` stands for at least one group of zero.
pub open spec fn v6(s: Seq<char>) -> Option<Seq<u16>> {
    if exists|i: int| first_gap(s, i) {
        let i = choose|i: int| first_gap(s, i);
        match (group_list(s.take(i), false), group_list(s.skip(i + 2), true)) {
            (Some(h), Some(t)) => if h.len() + t.len() <= 7 {
                Some(h + zeros(8 - h.len() - t.len()) + t)
            } else {
                None
            },
            _ => None,
        }
    } else {
        match group_list(s, true) {
            Some(g) => if g.len() == 8 {
                Some(g)
            } else {
                None
            },
            None => None,
        }
    }
}

/// An IPv6 address with an optional scope after `%`.
pub open spec fn scoped(s: Seq<char>) -> Option<(Seq<u16>, nat)> {
    match text::cut(s, '%') {
        None => match v6(s) {
            Some(g) => Some((g, 0)),
            None => None,
        },
        Some((a, n)) => match (v6(a), number(n, u32::MAX as nat)) {
            (Some(g), Some(scope)) => Some((g, scope)),
            _ => None,
        },
    }
}

/// A socket address: an IPv4 address, or an IPv6 address in brackets, then a
/// colon and the port.
pub open spec fn socket(s: Seq<char>) -> Option<AddrModel> {
    if s.len() > 0 && s[0] == '[' {
        match text::cut(s.skip(1), ']') {
            None => None,
            Some((inner, rest)) => if rest.len() > 0 && rest[0] == ':' {
                match (scoped(inner), number(rest.skip(1), u16::MAX as nat)) {
                    (Some((g, scope)), Some(port)) => Some(
                        AddrModel { ip: IpModel::V6(g), scope: scope as u32, port: port as u16 },
                    ),
                    _ => None,
                }
            } else {
                None
            },
        }
    } else {
        match text::cut(s, ':') {
            None => None,
            Some((a, p)) => match (v4(a), number(p, u16::MAX as nat)) {
                (Some(o), Some(port)) => Some(
                    AddrModel { ip: IpModel::V4(o), scope: 0, port: port as u16 },
                ),
                _ => None,
            },
        }
    }
}

/// `127.x.x.x` and `::1`.
pub open spec fn loopback(ip: IpModel) -> bool {
    match ip {
        IpModel::V4(o) => o.len() > 0 && o[0] == 127,
        IpModel::V6(g) => g == zeros(7).push(1u16),
    }
}

fn parse_number(s: &str, max: u64) -> (r: Option<u64>)
    ensures
        match r {
            Some(n) => number(s@, max as nat) == Some(n as nat),
            None => number(s@, max as nat) is None,
        },
{
    let v = text::chars_of(s);
    assert(v@.skip(0) =~= v@);
    match text::parse_digits(&v, 0, max as u128) {
        Some(n) => Some(n as u64),
        None => None,
    }
}

fn parse_octet(s: &str) -> (r: Option<u16>)
    ensures
        r == octet(s@),
{
    let v = text::chars_of(s);
    if v.len() < 1 || v.len() > 3 || (v.len() > 1 && v[0] == '0') {
        return None;
    }
    assert(v@.skip(0) =~= v@);
    match text::parse_digits(&v, 0, 255) {
        Some(n) => Some(n as u16),
        None => None,
    }
}

fn parse_hex_digit(c: char) -> (r: Option<u32>)
    ensures
        match r {
            Some(d) => hex_digit(c) == Some(d as nat) && d < 16,
            None => hex_digit(c) is None,
        },
{
    if '0' <= c && c <= '9' {
        Some(c as u32 - 48)
    } else if 'a' <= c && c <= 'f' {
        Some(c as u32 - 87)
    } else if 'A' <= c && c <= 'F' {
        Some(c as u32 - 55)
    } else {
        None
    }
}

fn parse_group(s: &str) -> (r: Option<u16>)
    ensures
        r == group(s@),
{
    let v = text::chars_of(s);
    if v.len() < 1 || v.len() > 4 {
        return None;
    }
    let mut n: u32 = 0;
    let mut bound: Ghost<int> = Ghost(1);
    let mut i: usize = 0;
    assert(v@.take(0) =~= Seq::<char>::empty());
    while i < v.len()
        invariant
            v@ == s@,
            i <= v@.len() <= 4,
            n == hex_value(v@.take(i as int)),
            n < bound@,
            bound@ == (if i == 0 {
                1int
            } else if i == 1 {
                16
            } else if i == 2 {
                256
            } else if i == 3 {
                4096
            } else {
                65536
            }),
            forall|k: int| 0 <= k < i ==> hex_digit(#[trigger] v@[k]) is Some,
        decreases v@.len() - i,
    {
        assert(v@.take(i + 1).drop_last() =~= v@.take(i as int));
        match parse_hex_digit(v[i]) {
            Some(d) => {
                n = n * 16 + d;
                proof {
                    bound@ = bound@ * 16;
                }
            },
            None => {
                assert(!all_hex(s@));
                return None;
            },
        }
        i += 1;
    }
    assert(v@.take(i as int) =~= v@);
    Some(n as u16)
}

fn parse_octets(ps: &Vec<String>) -> (r: Option<Vec<u16>>)
    ensures
        match r {
            Some(o) => octets(ps.deep_view()) == Some(o@),
            None => octets(ps.deep_view()) is None,
        },
{
    let mut o: Vec<u16> = Vec::new();
    let mut i: usize = 0;
    let ghost all = ps.deep_view();
    while i < ps.len()
        invariant
            i <= ps@.len(),
            all == ps.deep_view(),
            o@.len() == i,
            forall|k: int| 0 <= k < i ==> octet(#[trigger] all[k]) == Some(o@[k]),
        decreases ps@.len() - i,
    {
        match parse_octet(&ps[i]) {
            Some(n) => o.push(n),
            None => {
                assert(octet(all[i as int]) is None);
                return None;
            },
        }
        i += 1;
    }
    assert(all.map_values(|p: Seq<char>| octet(p)->0) =~= o@);
    Some(o)
}

fn parse_groups(ps: &Vec<String>, to: usize) -> (r: Option<Vec<u16>>)
    requires
        to <= ps@.len(),
    ensures
        match r {
            Some(g) => groups(ps.deep_view().take(to as int)) == Some(g@),
            None => groups(ps.deep_view().take(to as int)) is None,
        },
{
    let mut g: Vec<u16> = Vec::new();
    let mut i: usize = 0;
    let ghost all = ps.deep_view().take(to as int);
    while i < to
        invariant
            i <= to <= ps@.len(),
            all == ps.deep_view().take(to as int),
            g@.len() == i,
            forall|k: int| 0 <= k < i ==> group(#[trigger] all[k]) == Some(g@[k]),
        decreases to - i,
    {
        assert(all[i as int] == ps@[i as int]@);
        match parse_group(&ps[i]) {
            Some(n) => g.push(n),
            None => {
                assert(group(all[i as int]) is None);
                return None;
            },
        }
        i += 1;
    }
    assert(all.map_values(|p: Seq<char>| group(p)->0) =~= g@);
    Some(g)
}

fn parse_v4(s: &str) -> (r: Option<Vec<u16>>)
    ensures
        match r {
            Some(o) => v4(s@) == Some(o@) && o@.len() == 4 && forall|i: int|
                0 <= i < 4 ==> #[trigger] o@[i] <= 255,
            None => v4(s@) is None,
        },
{
    let ps = text::split_by(s, Sep::One('.'));
    assert(ps.deep_view().len() == ps@.len());
    if ps.len() != 4 {
        return None;
    }
    match parse_octets(&ps) {
        Some(o) => {
            assert forall|i: int| 0 <= i < 4 implies #[trigger] o@[i] <= 255 by {
                assert(octet(ps.deep_view()[i]) is Some);
            }
            Some(o)
        },
        None => None,
    }
}

fn parse_group_list(s: &str, tail: bool) -> (r: Option<Vec<u16>>)
    ensures
        match r {
            Some(g) => group_list(s@, tail) == Some(g@),
            None => group_list(s@, tail) is None,
        },
{
    if text::empty(s) {
        let none: Vec<u16> = Vec::new();
        assert(none@ =~= Seq::<u16>::empty());
        return Some(none);
    }
    let ps = text::split_by(s, Sep::One(':'));
    proof {
        text::lemma_split(s@, Sep::One(':'));
        assert(ps.deep_view().len() == ps@.len());
        assert(ps.deep_view().take(ps@.len() as int) =~= ps.deep_view());
        assert(ps.deep_view().take(ps@.len() - 1) =~= ps.deep_view().drop_last());
    }
    match parse_groups(&ps, ps.len()) {
        Some(g) => return Some(g),
        None => {},
    }
    if tail {
        match parse_groups(&ps, ps.len() - 1) {
            Some(mut g) => match parse_v4(&ps[ps.len() - 1]) {
                Some(o) => {
                    let ghost before = g@;
                    assert(o@[0] <= 255 && o@[1] <= 255 && o@[2] <= 255 && o@[3] <= 255);
                    g.push(o[0] * 256 + o[1]);
                    g.push(o[2] * 256 + o[3]);
                    assert(g@ =~= before + seq![pair(o@[0], o@[1]), pair(o@[2], o@[3])]);
                    return Some(g);
                },
                None => {},
            },
            None => {},
        }
    }
    None
}

fn find_gap(v: &Vec<char>) -> (r: Option<usize>)
    ensures
        match r {
            Some(i) => first_gap(v@, i as int) && i + 2 <= v@.len(),
            None => forall|i: int| !first_gap(v@, i),
        },
{
    let mut i: usize = 1;
    proof {
        reveal_strlit("::");
    }
    while i < v.len()
        invariant
            1 <= i,
            "::"@.len() == 2,
            "::"@[0] == ':',
            "::"@[1] == ':',
            forall|j: int| 0 <= j < i - 1 ==> !text::occurs_at(v@, "::"@, j),
        decreases v@.len() - i,
    {
        if v[i - 1] == ':' && v[i] == ':' {
            assert(v@.subrange(i - 1, i - 1 + 2) =~= "::"@);
            return Some(i - 1);
        }
        assert(!text::occurs_at(v@, "::"@, i - 1)) by {
            if text::occurs_at(v@, "::"@, i - 1) {
                assert(v@.subrange(i - 1, i - 1 + 2)[0] == ':');
                assert(v@.subrange(i - 1, i - 1 + 2)[1] == ':');
            }
        }
        i += 1;
    }
    None
}

fn parse_v6(s: &str) -> (r: Option<Vec<u16>>)
    ensures
        match r {
            Some(g) => v6(s@) == Some(g@),
            None => v6(s@) is None,
        },
{
    let v = text::chars_of(s);
    match find_gap(&v) {
        Some(i) => {
            let ghost k = choose|k: int| first_gap(s@, k);
            assert(first_gap(s@, k) && k == i);
            let a = text::text_range(&v, 0, i);
            let end: usize = v.len();
            assert(i + 2 <= end);
            let b = text::text_range(&v, i + 2, end);
            assert(a@ =~= s@.take(i as int));
            assert(b@ =~= s@.skip(i + 2));
            match (parse_group_list(&a, false), parse_group_list(&b, true)) {
                (Some(h), Some(t)) => {
                    if h.len() > 7 || t.len() > 7 - h.len() {
                        return None;
                    }
                    let ghost head = h@;
                    let mut g = h;
                    let gap: usize = 8 - g.len() - t.len();
                    let mut n: usize = 0;
                    assert(g@ =~= head + zeros(0));
                    while n < gap
                        invariant
                            n <= gap,
                            g@ == head + zeros(n as int),
                        decreases gap - n,
                    {
                        g.push(0);
                        assert(g@ =~= head + zeros(n + 1));
                        n += 1;
                    }
                    let ghost start = g@;
                    let mut m: usize = 0;
                    assert(start + t@.take(0) =~= start);
                    while m < t.len()
                        invariant
                            m <= t@.len(),
                            g@ == start + t@.take(m as int),
                        decreases t@.len() - m,
                    {
                        g.push(t[m]);
                        assert(g@ =~= start + t@.take(m + 1));
                        m += 1;
                    }
                    assert(t@.take(m as int) =~= t@);
                    Some(g)
                },
                _ => None,
            }
        },
        None => match parse_group_list(s, true) {
            Some(g) => if g.len() == 8 {
                Some(g)
            } else {
                None
            },
            None => None,
        },
    }
}

fn parse_scoped(s: &str) -> (r: Option<(Vec<u16>, u32)>)
    ensures
        match r {
            Some((g, n)) => scoped(s@) == Some((g@, n as nat)),
            None => scoped(s@) is None,
        },
{
    match text::cut_at(s, '%') {
        None => match parse_v6(s) {
            Some(g) => Some((g, 0)),
            None => None,
        },
        Some((a, n)) => match (parse_v6(&a), parse_number(&n, u32::MAX as u64)) {
            (Some(g), Some(scope)) => Some((g, scope as u32)),
            _ => None,
        },
    }
}

/// The socket address that `s` writes down.
pub fn parse_socket(s: &str) -> (r: Option<BindAddr>)
    ensures
        r.deep_view() == socket(s@),
{
    let v = text::chars_of(s);
    if v.len() > 0 && v[0] == '[' {
        let after = text::text_range(&v, 1, v.len());
        assert(after@ =~= s@.skip(1));
        match text::cut_at(&after, ']') {
            None => None,
            Some((inner, rest)) => {
                let w = text::chars_of(&rest);
                if w.len() == 0 || w[0] != ':' {
                    return None;
                }
                let port_text = text::text_range(&w, 1, w.len());
                assert(port_text@ =~= rest@.skip(1));
                match (parse_scoped(&inner), parse_number(&port_text, u16::MAX as u64)) {
                    (Some((g, scope)), Some(port)) => Some(
                        BindAddr { ip: Ip::V6(g), scope, port: port as u16 },
                    ),
                    _ => None,
                }
            },
        }
    } else {
        match text::cut_at(s, ':') {
            None => None,
            Some((a, p)) => match (parse_v4(&a), parse_number(&p, u16::MAX as u64)) {
                (Some(o), Some(port)) => Some(
                    BindAddr { ip: Ip::V4(o), scope: 0, port: port as u16 },
                ),
                _ => None,
            },
        }
    }
}

impl Ip {
    /// Whether the address reaches this machine alone.
    pub fn is_loopback(&self) -> (r: bool)
        ensures
            r == loopback(self@),
    {
        match self {
            Ip::V4(o) => o.len() > 0 && o[0] == 127,
            Ip::V6(g) => {
                if g.len() != 8 || g[7] != 1 {
                    return false;
                }
                let mut i: usize = 0;
                while i < 7
                    invariant
                        i <= 7,
                        g@.len() == 8,
                        self@ == IpModel::V6(g@),
                        forall|k: int| 0 <= k < i ==> g@[k] == 0,
                    decreases 7 - i,
                {
                    if g[i] != 0 {
                        assert(g@[i as int] != zeros(7).push(1u16)[i as int]);
                        return false;
                    }
                    i += 1;
                }
                assert(g@ =~= zeros(7).push(1u16));
                true
            },
        }
    }
}

/// An address that parses has four octets or eight groups.
pub proof fn law_socket_shape(s: Seq<char>)
    requires
        socket(s) is Some,
    ensures
        match socket(s)->0.ip {
            IpModel::V4(o) => o.len() == 4 && forall|i: int| 0 <= i < 4 ==> #[trigger] o[i] <= 255,
            IpModel::V6(g) => g.len() == 8,
        },
{
    match socket(s)->0.ip {
        IpModel::V4(o) => {
            let (a, _p) = text::cut(s, ':')->0;
            let ps = text::split(a, Sep::One('.'));
            assert forall|i: int| 0 <= i < 4 implies #[trigger] o[i] <= 255 by {
                assert(octet(ps[i]) is Some);
            }
        },
        IpModel::V6(g) => {},
    }
}

proof fn lemma_octet_of(n: nat)
    requires
        n <= 255,
    ensures
        octet(text::decimal(n)) == Some(n as u16),
{
    text::lemma_decimal(n);
    let d = text::decimal(n);
    reveal_with_fuel(text::decimal, 4);
    assert(text::all_digits(d));
    if n < 10 {
        assert(d.len() == 1);
    } else if n < 100 {
        assert(d.len() == 2);
        assert(d[0] == text::digit_char(n as int / 10));
    } else {
        assert(d.len() == 3);
        assert(d[0] == text::digit_char(n as int / 10 / 10));
    }
}

proof fn lemma_cut_at(a: Seq<char>, c: char, b: Seq<char>)
    requires
        forall|i: int| 0 <= i < a.len() ==> #[trigger] a[i] != c,
    ensures
        text::cut(a.push(c) + b, c) == Some((a, b)),
{
    let s = a.push(c) + b;
    let n = a.len() as int;
    assert(s[n] == c);
    assert forall|j: int| 0 <= j < n implies s[j] != c by {
        assert(s[j] == a[j]);
    }
    assert(text::first_at(s, c, n));
    let i = choose|i: int| text::first_at(s, c, i);
    assert(text::first_at(s, c, i));
    if i < n {
        assert(s[i] == a[i]);
    }
    if i > n {
        assert(s[n] != c);
    }
    assert(s.take(n) =~= a);
    assert(s.skip(n + 1) =~= b);
}

/// Four numbers up to 255 with points between them, a colon and a port are that
/// address with that port.
pub proof fn law_v4_address(a: u16, b: u16, c: u16, d: u16, port: u16)
    requires
        a <= 255,
        b <= 255,
        c <= 255,
        d <= 255,
    ensures
        socket(
            text::join(
                seq![
                    text::decimal(a as nat),
                    text::decimal(b as nat),
                    text::decimal(c as nat),
                    text::decimal(d as nat),
                ],
                seq!['.'],
            ).push(':') + text::decimal(port as nat),
        ) == Some(AddrModel { ip: IpModel::V4(seq![a, b, c, d]), scope: 0, port }),
{
    let ps = seq![
        text::decimal(a as nat),
        text::decimal(b as nat),
        text::decimal(c as nat),
        text::decimal(d as nat),
    ];
    let host = text::join(ps, seq!['.']);
    text::lemma_decimal(a as nat);
    text::lemma_decimal(b as nat);
    text::lemma_decimal(c as nat);
    text::lemma_decimal(d as nat);
    text::lemma_decimal(port as nat);
    assert forall|i: int, j: int| 0 <= i < ps.len() && 0 <= j < ps[i].len() implies !(Sep::One(
        '.',
    )).parts(#[trigger] ps[i][j]) by {
        assert(text::is_digit(ps[i][j]));
    }
    text::lemma_split_of_join(ps, '.', Sep::One('.'));
    lemma_octet_of(a as nat);
    lemma_octet_of(b as nat);
    lemma_octet_of(c as nat);
    lemma_octet_of(d as nat);
    assert(ps.map_values(|p: Seq<char>| octet(p)->0) =~= seq![a, b, c, d]);
    assert(v4(host) == Some(seq![a, b, c, d]));
    reveal_with_fuel(text::join, 5);
    assert(ps.drop_last() =~= seq![ps[0], ps[1], ps[2]]);
    assert(ps.drop_last().drop_last() =~= seq![ps[0], ps[1]]);
    assert(ps.drop_last().drop_last().drop_last() =~= seq![ps[0]]);
    assert(host =~= ps[0] + seq!['.'] + ps[1] + seq!['.'] + ps[2] + seq!['.'] + ps[3]);
    assert forall|i: int| 0 <= i < host.len() implies #[trigger] host[i] != ':' && host[i]
        != '[' by {
        let n0 = ps[0].len() as int;
        let n1 = n0 + 1 + ps[1].len();
        let n2 = n1 + 1 + ps[2].len();
        if i < n0 {
            assert(host[i] == ps[0][i]);
        } else if i == n0 || i == n1 || i == n2 {
            assert(host[i] == '.');
        } else if i < n1 {
            assert(host[i] == ps[1][i - n0 - 1]);
        } else if i < n2 {
            assert(host[i] == ps[2][i - n1 - 1]);
        } else {
            assert(host[i] == ps[3][i - n2 - 1]);
        }
    }
    let s = host.push(':') + text::decimal(port as nat);
    assert(s[0] == host[0]);
    lemma_cut_at(host, ':', text::decimal(port as nat));
    assert(number(text::decimal(port as nat), 65535) == Some(port as nat));
}

/// An address without a port, a part of an address above 255 or with a leading
/// zero, and a port above 65535 are no address.
pub proof fn law_no_address(s: Seq<char>, n: nat)
    ensures
        s.len() > 0 && s[0] != '[' && (forall|i: int| 0 <= i < s.len() ==> #[trigger] s[i] != ':')
            ==> socket(s) is None,
        n > 255 ==> octet(text::decimal(n)) is None,
        octet(seq!['0'] + text::decimal(n)) is None,
        octet(Seq::empty()) is None,
        n > 65535 ==> number(text::decimal(n), u16::MAX as nat) is None,
        number(Seq::empty(), u16::MAX as nat) is None,
{
    text::lemma_decimal(n);
    let z = seq!['0'] + text::decimal(n);
    assert(z[0] == '0');
}

/// The loopback addresses are those that begin with 127, and `::1`.
pub proof fn law_loopback(o: Seq<u16>, g: Seq<u16>)
    requires
        o.len() == 4,
        g.len() == 8,
    ensures
        loopback(IpModel::V4(o)) <==> o[0] == 127,
        loopback(IpModel::V6(g)) <==> g == seq![0u16, 0u16, 0u16, 0u16, 0u16, 0u16, 0u16, 1u16],
{
    assert(zeros(7).push(1u16) =~= seq![0u16, 0u16, 0u16, 0u16, 0u16, 0u16, 0u16, 1u16]);
}

/// Eight groups of hexadecimal digits with colons between them are that address.
pub proof fn law_v6_address(gs: Seq<Seq<char>>)
    requires
        gs.len() == 8,
        forall|i: int| 0 <= i < 8 ==> group(#[trigger] gs[i]) is Some,
    ensures
        v6(text::join(gs, seq![':'])) == Some(Seq::new(8, |i: int| group(gs[i])->0)),
{
    reveal_strlit("::");
    let s = text::join(gs, seq![':']);
    lemma_group_list(gs);
    lemma_no_gap(gs);
    assert forall|i: int| !first_gap(s, i) by {
        if text::occurs_at(s, "::"@, i) {
            assert(s.subrange(i, i + 2)[0] == s[i]);
            assert(s.subrange(i, i + 2)[1] == s[i + 1]);
            assert("::"@[0] == ':' && "::"@[1] == ':');
        }
    }
    assert(Seq::new(8, |i: int| group(gs[i])->0) =~= gs.map_values(|p: Seq<char>| group(p)->0));
}

/// Between groups, `::` stands for the groups of zero that are missing.
pub proof fn law_v6_gap(h: Seq<Seq<char>>, t: Seq<Seq<char>>)
    requires
        h.len() > 0,
        t.len() > 0,
        h.len() + t.len() <= 7,
        forall|i: int| 0 <= i < h.len() ==> group(#[trigger] h[i]) is Some,
        forall|i: int| 0 <= i < t.len() ==> group(#[trigger] t[i]) is Some,
    ensures
        v6(text::join(h, seq![':']) + seq![':', ':'] + text::join(t, seq![':'])) == Some(
            h.map_values(|p: Seq<char>| group(p)->0) + Seq::new(
                (8 - h.len() - t.len()) as nat,
                |i: int| 0u16,
            ) + t.map_values(|p: Seq<char>| group(p)->0),
        ),
        v6(seq![':', ':'] + text::join(t, seq![':'])) == Some(
            Seq::new((8 - t.len()) as nat, |i: int| 0u16) + t.map_values(
                |p: Seq<char>| group(p)->0,
            ),
        ),
{
    let a = text::join(h, seq![':']);
    let b = text::join(t, seq![':']);
    lemma_group_list(h);
    lemma_group_list(t);
    lemma_no_gap(h);
    lemma_gap_at(a, b);
    let hg = h.map_values(|p: Seq<char>| group(p)->0);
    let tg = t.map_values(|p: Seq<char>| group(p)->0);
    let none = Seq::<char>::empty();
    lemma_gap_at(none, b);
    assert(none + seq![':', ':'] + b =~= seq![':', ':'] + b);
    let zero = Seq::<u16>::empty();
    assert(zero + zeros(8 - t.len()) + tg =~= Seq::new((8 - t.len()) as nat, |i: int| 0u16) + tg);
}

/// Where no two colons stand together and none at the end, the first gap is the
/// one that follows.
proof fn lemma_gap_at(a: Seq<char>, b: Seq<char>)
    requires
        a.len() > 0 ==> a.last() != ':',
        forall|i: int| 0 <= i < a.len() - 1 ==> #[trigger] a[i] != ':' || a[i + 1] != ':',
    ensures
        v6(a + seq![':', ':'] + b) == (match (group_list(a, false), group_list(b, true)) {
            (Some(h), Some(t)) => if h.len() + t.len() <= 7 {
                Some(h + zeros(8 - h.len() - t.len()) + t)
            } else {
                None
            },
            _ => None,
        }),
{
    reveal_strlit("::");
    let w = a + seq![':', ':'] + b;
    let n = a.len() as int;
    assert(w.subrange(n, n + 2) =~= "::"@);
    assert forall|j: int| 0 <= j < n implies !text::occurs_at(w, "::"@, j) by {
        if text::occurs_at(w, "::"@, j) {
            assert(w.subrange(j, j + 2)[0] == w[j]);
            assert(w.subrange(j, j + 2)[1] == w[j + 1]);
            assert("::"@[0] == ':' && "::"@[1] == ':');
            assert(w[j] == a[j]);
            if j + 1 < n {
                assert(w[j + 1] == a[j + 1]);
            } else {
                assert(a.last() == ':');
            }
        }
    }
    assert(first_gap(w, n));
    let i = choose|i: int| first_gap(w, i);
    assert(first_gap(w, i));
    assert(i == n) by {
        if i < n {
            assert(!text::occurs_at(w, "::"@, i));
        }
        if n < i {
            assert(!text::occurs_at(w, "::"@, n));
        }
    }
    assert(w.take(n) =~= a);
    assert(w.skip(n + 2) =~= b);
}

proof fn lemma_group_list(gs: Seq<Seq<char>>)
    requires
        gs.len() > 0,
        forall|i: int| 0 <= i < gs.len() ==> group(#[trigger] gs[i]) is Some,
    ensures
        text::join(gs, seq![':']).len() > 0,
        forall|tail: bool|
            #[trigger] group_list(text::join(gs, seq![':']), tail) == Some(
                gs.map_values(|p: Seq<char>| group(p)->0),
            ),
{
    assert forall|i: int, j: int| 0 <= i < gs.len() && 0 <= j < gs[i].len() implies !(Sep::One(
        ':',
    )).parts(#[trigger] gs[i][j]) by {
        assert(group(gs[i]) is Some);
        assert(hex_digit(gs[i][j]) is Some);
    }
    text::lemma_split_of_join(gs, ':', Sep::One(':'));
    lemma_no_gap(gs);
}

/// No two colons stand together between groups, and none at an end.
proof fn lemma_no_gap(gs: Seq<Seq<char>>)
    requires
        gs.len() > 0,
        forall|i: int| 0 <= i < gs.len() ==> group(#[trigger] gs[i]) is Some,
    ensures
        ({
            let s = text::join(gs, seq![':']);
            &&& s.len() > 0
            &&& s.last() != ':'
            &&& forall|i: int| 0 <= i < s.len() - 1 ==> #[trigger] s[i] != ':' || s[i + 1] != ':'
        }),
    decreases gs.len(),
{
    let s = text::join(gs, seq![':']);
    let g = gs.last();
    assert(group(gs[gs.len() - 1]) is Some);
    assert(g.len() > 0);
    assert forall|j: int| 0 <= j < g.len() implies #[trigger] g[j] != ':' by {
        assert(hex_digit(g[j]) is Some);
    }
    if gs.len() == 1 {
        assert(s == g);
    } else {
        let init = gs.drop_last();
        assert forall|i: int| 0 <= i < init.len() implies group(#[trigger] init[i]) is Some by {
            assert(init[i] == gs[i]);
        }
        lemma_no_gap(init);
        let r = text::join(init, seq![':']);
        assert(s == r + seq![':'] + g);
        let n = r.len() as int;
        assert forall|i: int| 0 <= i < s.len() - 1 implies #[trigger] s[i] != ':' || s[i + 1]
            != ':' by {
            if i < n {
                assert(s[i] == r[i]);
                if i + 1 < n {
                    assert(s[i + 1] == r[i + 1]);
                } else {
                    assert(r[i] == r.last());
                }
            } else {
                assert(s[i + 1] == g[i - n]);
            }
        }
        assert(s.last() == g.last());
        assert(g.last() == g[g.len() - 1]);
    }
}

/// A group is the number that its one to four hexadecimal digits write down, in
/// capitals or small letters; anything else is no group.
pub proof fn law_groups(s: Seq<char>, n: int)
    requires
        0 <= n < 16,
    ensures
        hex_digit("0123456789abcdef"@[n]) == Some(n as nat),
        hex_digit("0123456789ABCDEF"@[n]) == Some(n as nat),
        group(seq!["0123456789abcdef"@[n]]) == Some(n as u16),
        1 <= s.len() <= 3 && all_hex(s) ==> group(s.push("0123456789abcdef"@[n])) is Some && group(
            s,
        ) is Some && hex_value(s.push("0123456789abcdef"@[n])) == 16 * hex_value(s) + n,
        s.len() == 0 || s.len() > 4 ==> group(s) is None,
        forall|i: int|
            0 <= i < s.len() && hex_digit(#[trigger] s[i]) is None ==> group(s) is None,
{
    reveal_strlit("0123456789abcdef");
    reveal_strlit("0123456789ABCDEF");
    reveal_with_fuel(hex_value, 2);
    let d = "0123456789abcdef"@[n];
    assert(hex_digit(d) == Some(n as nat));
    assert(all_hex(seq![d]));
    assert(seq![d].drop_last() =~= Seq::<char>::empty());
    assert(s.push(d).drop_last() =~= s);
    if all_hex(s) {
        assert forall|i: int| 0 <= i < s.push(d).len() implies hex_digit(
            #[trigger] s.push(d)[i],
        ) is Some by {
            if i < s.len() {
                assert(s.push(d)[i] == s[i]);
            }
        }
    }
}

/// An address in brackets, a colon and a port are that address, without a scope or
/// with the number behind its percent sign, and that port.
pub proof fn law_bracketed(a: Seq<char>, scope: u32, port: u16)
    requires
        forall|i: int| 0 <= i < a.len() ==> #[trigger] a[i] != ']' && a[i] != '%',
    ensures
        ({
            let plain = socket((seq!['['] + a).push(']') + (seq![':'] + text::decimal(port as nat)));
            let scoped = socket(
                (seq!['['] + (a.push('%') + text::decimal(scope as nat))).push(']') + (seq![':']
                    + text::decimal(port as nat)),
            );
            &&& v6(a) is Some ==> plain == Some(
                AddrModel { ip: IpModel::V6(v6(a)->0), scope: 0, port },
            )
            &&& v6(a) is Some ==> scoped == Some(
                AddrModel { ip: IpModel::V6(v6(a)->0), scope, port },
            )
            &&& v6(a) is None ==> plain is None && scoped is None
        }),
{
    let n = text::decimal(scope as nat);
    let b = a.push('%') + n;
    text::lemma_decimal(scope as nat);
    assert forall|i: int| 0 <= i < b.len() implies #[trigger] b[i] != ']' by {
        if i < a.len() {
            assert(b[i] == a[i]);
        } else if i > a.len() {
            assert(b[i] == n[i - a.len() - 1]);
        }
    }
    lemma_in_brackets(a, port);
    lemma_in_brackets(b, port);
    lemma_scopes(a, scope);
}

proof fn lemma_scopes(a: Seq<char>, scope: u32)
    requires
        forall|i: int| 0 <= i < a.len() ==> #[trigger] a[i] != '%',
    ensures
        v6(a) is Some ==> scoped(a) == Some((v6(a)->0, 0nat)) && scoped(
            a.push('%') + text::decimal(scope as nat),
        ) == Some((v6(a)->0, scope as nat)),
        v6(a) is None ==> scoped(a) is None && scoped(
            a.push('%') + text::decimal(scope as nat),
        ) is None,
{
    let n = text::decimal(scope as nat);
    text::lemma_decimal(scope as nat);
    assert(text::all_digits(n));
    assert(number(n, u32::MAX as nat) == Some(scope as nat));
    assert(text::cut(a, '%') is None) by {
        assert forall|i: int| !text::first_at(a, '%', i) by {
            if 0 <= i < a.len() {
                assert(a[i] != '%');
            }
        }
    }
    lemma_cut_at(a, '%', n);
}

proof fn lemma_in_brackets(inner: Seq<char>, port: u16)
    requires
        forall|i: int| 0 <= i < inner.len() ==> #[trigger] inner[i] != ']',
    ensures
        socket((seq!['['] + inner).push(']') + (seq![':'] + text::decimal(port as nat))) == (
        match scoped(inner) {
            Some((g, scope)) => Some(
                AddrModel { ip: IpModel::V6(g), scope: scope as u32, port },
            ),
            None => None,
        }),
{
    let d = text::decimal(port as nat);
    let p = seq![':'] + d;
    text::lemma_decimal(port as nat);
    assert(text::all_digits(d));
    assert(p.skip(1) =~= d);
    assert(number(d, u16::MAX as nat) == Some(port as nat));
    let w = (seq!['['] + inner).push(']') + p;
    assert(w[0] == '[');
    assert(w.skip(1) =~= inner.push(']') + p);
    lemma_cut_at(inner, ']', p);
}

} // verus!
