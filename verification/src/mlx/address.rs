//! Addresses, as a URL writes them, and how near they are.

use vstd::prelude::*;
use vstd::string::*;

use crate::asset;
use crate::css;
use crate::css::hex_digit;
use crate::text;
use crate::text::{chars_of, parse_unsigned, slice, split};

verus! {

/// An address, by its numbers.
#[derive(Debug, Clone, Copy)]
pub enum HostIp {
    V4([u8; 4]),
    V6([u16; 8]),
}

/// What a `HostIp` holds.
#[verifier::ext_equal]
pub enum AddressView {
    V4(Seq<u8>),
    V6(Seq<u16>),
}

impl HostIp {
    pub open spec fn view(&self) -> AddressView {
        match *self {
            HostIp::V4(a) => AddressView::V4(a@),
            HostIp::V6(s) => AddressView::V6(s@),
        }
    }
}

pub open spec fn opt_address(o: Option<HostIp>) -> Option<AddressView> {
    match o {
        Some(ip) => Some(ip@),
        None => None,
    }
}

// ---------------------------------------------------------------------------
// How near
// ---------------------------------------------------------------------------

/// The machine itself.
pub open spec fn is_loopback(ip: AddressView) -> bool {
    match ip {
        AddressView::V4(a) => a[0] == 127,
        AddressView::V6(s) => s[0] == 0 && s[1] == 0 && s[2] == 0 && s[3] == 0 && s[4] == 0 && s[5]
            == 0 && s[6] == 0 && s[7] == 1,
    }
}

/// A private, link-local or unique-local address.
pub open spec fn is_nearby(ip: AddressView) -> bool {
    match ip {
        AddressView::V4(a) => a[0] == 10 || (a[0] == 172 && 16 <= a[1] <= 31) || (a[0] == 192
            && a[1] == 168) || (a[0] == 169 && a[1] == 254),
        AddressView::V6(s) => is_loopback(ip) || 0xfc00 <= s[0] <= 0xfdff || 0xfe80 <= s[0]
            <= 0xfebf,
    }
}

/// Whether the address is that of the machine itself.
pub fn loopback(ip: &HostIp) -> (r: bool)
    ensures
        r == is_loopback(ip@),
{
    match ip {
        HostIp::V4(a) => a[0] == 127,
        HostIp::V6(s) => s[0] == 0 && s[1] == 0 && s[2] == 0 && s[3] == 0 && s[4] == 0 && s[5] == 0
            && s[6] == 0 && s[7] == 1,
    }
}

/// Whether the address is private, link-local or unique-local.
pub fn is_private_or_local(ip: &HostIp) -> (r: bool)
    ensures
        r == is_nearby(ip@),
{
    match ip {
        HostIp::V4(a) => a[0] == 10 || (a[0] == 172 && a[1] >= 16 && a[1] <= 31) || (a[0] == 192
            && a[1] == 168) || (a[0] == 169 && a[1] == 254),
        HostIp::V6(s) => loopback(ip) || (s[0] >= 0xfc00 && s[0] <= 0xfdff) || (s[0] >= 0xfe80
            && s[0] <= 0xfebf),
    }
}

// ---------------------------------------------------------------------------
// Dotted decimal
// ---------------------------------------------------------------------------

/// A byte in decimal, without needless zeros.
pub open spec fn octet(s: Seq<char>) -> Option<u8> {
    if 0 < s.len() && text::all_digits(s) && (s.len() == 1 || s[0] != '0') && text::digits_value(s)
        <= 255 {
        Some(text::digits_value(s) as u8)
    } else {
        None
    }
}

/// The bytes that the parts stand for, where each stands for one.
pub open spec fn octets(parts: Seq<Seq<char>>) -> Option<Seq<u8>>
    decreases parts.len(),
{
    if parts.len() == 0 {
        Some(Seq::empty())
    } else {
        match (octets(parts.drop_last()), octet(parts.last())) {
            (Some(rest), Some(b)) => Some(rest.push(b)),
            _ => None,
        }
    }
}

/// The address that a text in dotted decimal stands for.
pub open spec fn v4_address(s: Seq<char>) -> Option<Seq<u8>> {
    if text::split_on(s, '.').len() == 4 {
        octets(text::split_on(s, '.'))
    } else {
        None
    }
}

fn read_octet(s: &str) -> (r: Option<u8>)
    ensures
        r == octet(s@),
{
    let cs = chars_of(s);
    if cs.len() == 0 || cs[0] == '+' || (cs.len() > 1 && cs[0] == '0') {
        return None;
    }
    match parse_unsigned(s, 255) {
        Some(v) => Some(v as u8),
        None => None,
    }
}

fn read_v4(s: &str) -> (r: Option<[u8; 4]>)
    ensures
        match r {
            Some(a) => v4_address(s@) == Some(a@),
            None => v4_address(s@) is None,
        },
{
    let parts = split(s, '.');
    let ghost views = text::texts(parts@);
    if parts.len() != 4 {
        return None;
    }
    let mut out: Vec<u8> = Vec::new();
    let mut i: usize = 0;
    while i < parts.len()
        invariant
            i <= parts@.len(),
            views == text::texts(parts@),
            views == text::split_on(s@, '.'),
            out@.len() == i,
            octets(views.take(i as int)) == Some(out@),
        decreases parts.len() - i,
    {
        let read = read_octet(parts[i].as_str());
        proof {
            text::lemma_take_step(views, i as int);
        }
        match read {
            Some(b) => out.push(b),
            None => {
                proof {
                    lemma_octets_all(views, i as int);
                }
                return None;
            },
        }
        i = i + 1;
    }
    proof {
        text::lemma_take_all(views);
    }
    let a: [u8; 4] = [out[0], out[1], out[2], out[3]];
    proof {
        assert(a@ =~= out@);
    }
    Some(a)
}

proof fn lemma_octets_all(parts: Seq<Seq<char>>, i: int)
    requires
        0 <= i < parts.len(),
        octet(parts[i]) is None,
    ensures
        octets(parts) is None,
    decreases parts.len(),
{
    if i < parts.len() - 1 {
        lemma_octets_all(parts.drop_last(), i);
    }
}

// ---------------------------------------------------------------------------
// Groups of hexadecimal digits
// ---------------------------------------------------------------------------

/// The number that hexadecimal digits stand for.
pub open spec fn hex_number(s: Seq<char>) -> int
    decreases s.len(),
{
    if s.len() == 0 {
        0
    } else {
        hex_number(s.drop_last()) * 16 + css::hex_value(s.last())
    }
}

/// Up to four hexadecimal digits.
pub open spec fn group(s: Seq<char>) -> Option<u16> {
    if 0 < s.len() <= 4 && forall|i: int| 0 <= i < s.len() ==> css::is_hex(#[trigger] s[i]) {
        Some(hex_number(s) as u16)
    } else {
        None
    }
}

/// The groups that the parts stand for, where each stands for one.
pub open spec fn groups(parts: Seq<Seq<char>>) -> Option<Seq<u16>>
    decreases parts.len(),
{
    if parts.len() == 0 {
        Some(Seq::empty())
    } else {
        match (groups(parts.drop_last()), group(parts.last())) {
            (Some(rest), Some(g)) => Some(rest.push(g)),
            _ => None,
        }
    }
}

/// The groups of a text, with colons between them; an empty text has none.
pub open spec fn listed_groups(s: Seq<char>) -> Option<Seq<u16>> {
    if s.len() == 0 {
        Some(Seq::empty())
    } else {
        groups(text::split_on(s, ':'))
    }
}

/// The position of the first double colon; the length where there is none.
pub open spec fn first_gap(s: Seq<char>) -> int
    decreases s.len(),
{
    if s.len() < 2 {
        s.len() as int
    } else if s[0] == ':' && s[1] == ':' {
        0
    } else {
        1 + first_gap(s.skip(1))
    }
}

/// The address that groups of hexadecimal digits stand for: eight, or fewer with a double colon in
/// the place of groups that are zero.
pub open spec fn v6_address(s: Seq<char>) -> Option<Seq<u16>> {
    let gap = first_gap(s);
    if gap < s.len() {
        match (listed_groups(s.take(gap)), listed_groups(s.skip(gap + 2))) {
            (Some(l), Some(r)) => if l.len() + r.len() < 8 {
                Some(l + Seq::new((8 - l.len() - r.len()) as nat, |i: int| 0u16) + r)
            } else {
                None
            },
            _ => None,
        }
    } else {
        match listed_groups(s) {
            Some(g) => if g.len() == 8 {
                Some(g)
            } else {
                None
            },
            None => None,
        }
    }
}

fn read_group(s: &str) -> (r: Option<u16>)
    ensures
        r == group(s@),
{
    let cs = chars_of(s);
    if cs.len() == 0 || cs.len() > 4 {
        return None;
    }
    let mut value: u32 = 0;
    let mut limit: Ghost<int> = Ghost(1);
    let mut i: usize = 0;
    while i < cs.len()
        invariant
            i <= cs@.len() <= 4,
            cs@ == s@,
            forall|k: int| 0 <= k < i ==> css::is_hex(#[trigger] s@[k]),
            value == hex_number(s@.take(i as int)),
            limit@ == if i == 0 { 1int } else if i == 1 { 16 } else if i == 2 { 256 } else if i
                == 3 { 4096 } else { 65536 },
            value < limit@,
        decreases cs.len() - i,
    {
        proof {
            text::lemma_take_step(s@, i as int);
        }
        match hex_digit(cs[i]) {
            Some(d) => {
                value = value * 16 + d as u32;
                proof {
                    limit@ = limit@ * 16;
                }
            },
            None => return None,
        }
        i = i + 1;
    }
    proof {
        text::lemma_take_all(s@);
    }
    Some(value as u16)
}

proof fn lemma_groups_all(parts: Seq<Seq<char>>, i: int)
    requires
        0 <= i < parts.len(),
        group(parts[i]) is None,
    ensures
        groups(parts) is None,
    decreases parts.len(),
{
    if i < parts.len() - 1 {
        lemma_groups_all(parts.drop_last(), i);
    }
}

fn read_groups(s: &str) -> (r: Option<Vec<u16>>)
    ensures
        match r {
            Some(g) => listed_groups(s@) == Some(g@),
            None => listed_groups(s@) is None,
        },
{
    let mut out: Vec<u16> = Vec::new();
    if s.is_empty() {
        proof {
            assert(out@ =~= Seq::empty());
        }
        return Some(out);
    }
    let parts = split(s, ':');
    let ghost views = text::texts(parts@);
    let mut i: usize = 0;
    while i < parts.len()
        invariant
            i <= parts@.len(),
            views == text::texts(parts@),
            views == text::split_on(s@, ':'),
            s@.len() > 0,
            groups(views.take(i as int)) == Some(out@),
        decreases parts.len() - i,
    {
        let read = read_group(parts[i].as_str());
        proof {
            text::lemma_take_step(views, i as int);
        }
        match read {
            Some(g) => out.push(g),
            None => {
                proof {
                    lemma_groups_all(views, i as int);
                }
                return None;
            },
        }
        i = i + 1;
    }
    proof {
        text::lemma_take_all(views);
    }
    Some(out)
}

fn find_gap(cs: &Vec<char>) -> (r: usize)
    ensures
        r == first_gap(cs@),
        r < cs@.len() ==> r + 2 <= cs@.len(),
        r <= cs@.len(),
{
    let mut i: usize = 0;
    proof {
        assert(cs@.skip(0) =~= cs@);
    }
    while i < cs.len() && i + 1 < cs.len()
        invariant
            i <= cs@.len(),
            first_gap(cs@) == i + first_gap(cs@.skip(i as int)),
        decreases cs.len() - i,
    {
        let ghost rest = cs@.skip(i as int);
        proof {
            assert(rest[0] == cs@[i as int] && rest[1] == cs@[i + 1]);
            assert(rest.skip(1) =~= cs@.skip(i + 1));
        }
        if cs[i] == ':' && cs[i + 1] == ':' {
            return i;
        }
        i = i + 1;
    }
    proof {
        assert(cs@.skip(i as int).len() < 2);
    }
    cs.len()
}

fn read_v6(s: &str) -> (r: Option<[u16; 8]>)
    ensures
        match r {
            Some(a) => v6_address(s@) == Some(a@),
            None => v6_address(s@) is None,
        },
{
    let cs = chars_of(s);
    let gap = find_gap(&cs);
    let mut all: Vec<u16> = Vec::new();
    if gap < cs.len() {
        let front = slice(&cs, 0, gap);
        let back = slice(&cs, gap + 2, cs.len());
        proof {
            assert(front@ =~= s@.take(gap as int));
            assert(back@ =~= s@.skip(gap + 2));
        }
        let left = match read_groups(front.as_str()) {
            Some(g) => g,
            None => return None,
        };
        let mut right = match read_groups(back.as_str()) {
            Some(g) => g,
            None => return None,
        };
        if left.len() >= 8 || right.len() >= 8 || left.len() + right.len() >= 8 {
            return None;
        }
        let ghost l = left@;
        let ghost r = right@;
        let ghost zeros = Seq::new((8 - l.len() - r.len()) as nat, |i: int| 0u16);
        all = left;
        while all.len() + right.len() < 8
            invariant
                right@ == r,
                l.len() + r.len() < 8,
                l.len() <= all@.len(),
                all@.len() + r.len() <= 8,
                zeros == Seq::new((8 - l.len() - r.len()) as nat, |i: int| 0u16),
                all@ == l + zeros.take(all@.len() - l.len()),
            decreases 8 - all.len(),
        {
            let ghost before = all@;
            all.push(0);
            proof {
                assert(all@ =~= l + zeros.take(before.len() - l.len() + 1));
            }
        }
        proof {
            assert(zeros.take(zeros.len() as int) =~= zeros);
        }
        all.append(&mut right);
    } else {
        all = match read_groups(s) {
            Some(g) => g,
            None => return None,
        };
        if all.len() != 8 {
            return None;
        }
    }
    let a: [u16; 8] = [all[0], all[1], all[2], all[3], all[4], all[5], all[6], all[7]];
    proof {
        assert(a@ =~= all@);
    }
    Some(a)
}

// ---------------------------------------------------------------------------
// Either
// ---------------------------------------------------------------------------

/// The address that a host is, where it is no name.
pub open spec fn address(host: Seq<char>) -> Option<AddressView> {
    match v4_address(host) {
        Some(a) => Some(AddressView::V4(a)),
        None => match v6_address(host) {
            Some(s) => Some(AddressView::V6(s)),
            None => None,
        },
    }
}

/// The address that a host without brackets is, where it is no name.
pub fn read_address(host: &str) -> (r: Option<HostIp>)
    ensures
        opt_address(r) == address(host@),
{
    match read_v4(host) {
        Some(a) => Some(HostIp::V4(a)),
        None => match read_v6(host) {
            Some(s) => Some(HostIp::V6(s)),
            None => None,
        },
    }
}

// ---------------------------------------------------------------------------
// Laws
// ---------------------------------------------------------------------------

/// The bytes of an address in dotted decimal.
pub open spec fn dotted(a: Seq<u8>) -> Seq<char> {
    text::joined(a.map_values(|b: u8| text::decimal(b as nat)), "."@)
}

proof fn lemma_split_after(front: Seq<char>, part: Seq<char>, c: char)
    requires
        !part.contains(c),
    ensures
        text::split_on(front.push(c) + part, c) == text::split_on(front, c).push(part),
    decreases part.len(),
{
    let s = front.push(c) + part;
    if part.len() == 0 {
        assert(part =~= Seq::empty());
        assert(s =~= front.push(c));
        assert(s.drop_last() =~= front);
    } else {
        let init = part.drop_last();
        if init.contains(c) {
            let i = choose|i: int| 0 <= i < init.len() && init[i] == c;
            assert(part[i] == c);
        }
        lemma_split_after(front, init, c);
        assert(s.drop_last() =~= front.push(c) + init);
        assert(part.contains(part.last()));
        assert(init.push(part.last()) =~= part);
        let rest = text::split_on(front, c).push(init);
        assert(rest.update(rest.len() - 1, rest.last().push(s.last())) =~= text::split_on(
            front,
            c,
        ).push(part));
    }
}

proof fn lemma_split_single(s: Seq<char>, c: char)
    requires
        !s.contains(c),
    ensures
        text::split_on(s, c) == seq![s],
    decreases s.len(),
{
    if s.len() > 0 {
        let init = s.drop_last();
        if init.contains(c) {
            let i = choose|i: int| 0 <= i < init.len() && init[i] == c;
            assert(s[i] == c);
        }
        lemma_split_single(init, c);
        assert(s.contains(s.last()));
        assert(init.push(s.last()) =~= s);
        assert(text::split_on(s, c) =~= seq![s]);
    } else {
        assert(s =~= Seq::empty());
    }
}

proof fn lemma_decimal(n: nat)
    ensures
        text::decimal(n).len() > 0,
        text::all_digits(text::decimal(n)),
        text::digits_value(text::decimal(n)) == n,
        text::decimal(n).len() == 1 || text::decimal(n)[0] != '0',
        n >= 10 ==> text::decimal(n).len() > 1,
        n > 0 ==> text::decimal(n)[0] != '0',
    decreases n,
{
    let s = text::decimal(n);
    if n < 10 {
        assert(s.drop_last() =~= Seq::empty());
        assert(text::digits_value(Seq::empty()) == 0);
    } else {
        lemma_decimal(n / 10);
        assert(s.drop_last() =~= text::decimal(n / 10));
    }
}

proof fn lemma_octet(b: u8)
    ensures
        octet(text::decimal(b as nat)) == Some(b),
        !text::decimal(b as nat).contains('.'),
{
    lemma_decimal(b as nat);
    let s = text::decimal(b as nat);
    if s.contains('.') {
        let i = choose|i: int| 0 <= i < s.len() && s[i] == '.';
        assert('0' <= s[i]);
    }
}

proof fn lemma_dotted(a: Seq<u8>)
    requires
        a.len() > 0,
    ensures
        text::split_on(dotted(a), '.') == a.map_values(|b: u8| text::decimal(b as nat)),
        octets(a.map_values(|b: u8| text::decimal(b as nat))) == Some(a),
    decreases a.len(),
{
    let parts = a.map_values(|b: u8| text::decimal(b as nat));
    let init = a.drop_last();
    let before = init.map_values(|b: u8| text::decimal(b as nat));
    lemma_octet(a.last());
    assert(parts.drop_last() =~= before);
    assert(init.push(a.last()) =~= a);
    reveal_strlit(".");
    if a.len() == 1 {
        lemma_split_single(parts[0], '.');
        assert(parts =~= seq![parts[0]]);
        assert(before =~= Seq::empty());
        assert(Seq::<u8>::empty().push(a.last()) =~= a);
    } else {
        lemma_dotted(init);
        lemma_split_after(dotted(init), parts.last(), '.');
        assert(dotted(a) =~= dotted(init).push('.') + parts.last());
        assert(before.push(parts.last()) =~= parts);
    }
}

pub(crate) proof fn lemma_dotted_ends(a: Seq<u8>)
    requires
        a.len() > 0,
    ensures
        dotted(a).len() > 0,
        '0' <= dotted(a)[0] && dotted(a)[0] <= '9',
        '0' <= dotted(a).last() && dotted(a).last() <= '9',
    decreases a.len(),
{
    let parts = a.map_values(|b: u8| text::decimal(b as nat));
    let last = text::decimal(a.last() as nat);
    lemma_decimal(a.last() as nat);
    assert(parts.last() == last);
    assert('0' <= last[0] && '0' <= last[last.len() - 1]);
    reveal_strlit(".");
    if a.len() > 1 {
        let init = a.drop_last();
        lemma_dotted_ends(init);
        assert(parts.drop_last() =~= init.map_values(|b: u8| text::decimal(b as nat)));
    }
}

/// Four bytes in dotted decimal are read as the address that they are.
pub proof fn law_dotted_decimal_is_read(a: Seq<u8>)
    requires
        a.len() == 4,
    ensures
        address(dotted(a)) == Some(AddressView::V4(a)),
{
    lemma_dotted(a);
}

/// A host without dots and colons is a name.
pub proof fn law_plain_name_is_no_address(host: Seq<char>)
    requires
        !host.contains('.'),
        !host.contains(':'),
    ensures
        address(host) is None,
{
    lemma_split_single(host, '.');
    lemma_split_single(host, ':');
    lemma_no_gap(host);
    reveal_with_fuel(groups, 2);
}

proof fn lemma_no_gap(s: Seq<char>)
    requires
        !s.contains(':'),
    ensures
        first_gap(s) == s.len(),
    decreases s.len(),
{
    if s.len() >= 2 {
        assert(s.contains(s[0]));
        let rest = s.skip(1);
        if rest.contains(':') {
            let i = choose|i: int| 0 <= i < rest.len() && rest[i] == ':';
            assert(s[i + 1] == ':');
        }
        lemma_no_gap(rest);
    }
}

/// A group of digits is read as the number that they are in base sixteen.
pub proof fn law_group_is_read(n: nat)
    requires
        n < 0x1_0000,
    ensures
        group(asset::hexadecimal(n)) == Some(n as u16),
{
    asset::law_hexadecimal_is_read(n);
    lemma_group_length(n);
    lemma_same_value(asset::hexadecimal(n));
}

proof fn lemma_same_value(s: Seq<char>)
    ensures
        hex_number(s) == asset::hexadecimal_value(s),
    decreases s.len(),
{
    if s.len() > 0 {
        lemma_same_value(s.drop_last());
    }
}

proof fn lemma_group_length(n: nat)
    requires
        n < 0x1_0000,
    ensures
        0 < asset::hexadecimal(n).len() <= 4,
{
    if n >= 16 {
        let a = n / 16;
        assert(asset::hexadecimal(n).len() == asset::hexadecimal(a).len() + 1);
        if a >= 16 {
            let b = a / 16;
            assert(asset::hexadecimal(a).len() == asset::hexadecimal(b).len() + 1);
            if b >= 16 {
                assert(asset::hexadecimal(b).len() == asset::hexadecimal(b / 16).len() + 1);
                assert(b / 16 < 16);
            }
        }
    }
}

/// A double colon in front of a group puts it last, and one behind it puts it first; all other groups
/// are zero.
pub proof fn law_double_colon_fills_with_zeros(h: Seq<char>, i: int)
    requires
        group(h) is Some,
        0 <= i < 8,
    ensures
        v6_address(seq![':', ':'] + h) matches Some(g) && g.len() == 8 && g[i] == (if i == 7 {
            group(h)->0
        } else {
            0
        }),
        v6_address(h + seq![':', ':']) matches Some(g) && g.len() == 8 && g[i] == (if i == 0 {
            group(h)->0
        } else {
            0
        }),
{
    assert(!h.contains(':')) by {
        if h.contains(':') {
            let k = choose|k: int| 0 <= k < h.len() && h[k] == ':';
            assert(css::is_hex(h[k]));
        }
    }
    lemma_split_single(h, ':');
    assert(listed_groups(h) == Some(seq![group(h)->0])) by {
        reveal_with_fuel(groups, 2);
        assert(seq![h].drop_last() =~= Seq::<Seq<char>>::empty());
        assert(groups(seq![h])->0 =~= seq![group(h)->0]);
    }
    let a = seq![':', ':'] + h;
    assert(first_gap(a) == 0);
    assert(a.take(0) =~= Seq::<char>::empty());
    assert(a.skip(2) =~= h);
    let b = h + seq![':', ':'];
    lemma_gap_behind(h);
    assert(b.take(h.len() as int) =~= h);
    assert(b.skip(h.len() as int + 2) =~= Seq::<char>::empty());
}

proof fn lemma_gap_behind(h: Seq<char>)
    requires
        !h.contains(':'),
    ensures
        first_gap(h + seq![':', ':']) == h.len(),
    decreases h.len(),
{
    let b = h + seq![':', ':'];
    if h.len() > 0 {
        let rest = h.skip(1);
        assert(h.contains(h[0]));
        if rest.contains(':') {
            let i = choose|i: int| 0 <= i < rest.len() && rest[i] == ':';
            assert(h[i + 1] == ':');
        }
        lemma_gap_behind(rest);
        assert(b.skip(1) =~= rest + seq![':', ':']);
        assert(b[0] == h[0]);
    }
}

/// An address in IPv6 has eight groups.
pub proof fn law_addresses_have_eight_groups(s: Seq<char>)
    ensures
        v6_address(s) matches Some(g) ==> g.len() == 8,
        v4_address(s) matches Some(a) ==> a.len() == 4,
{
    lemma_octet_count(text::split_on(s, '.'));
}

proof fn lemma_octet_count(parts: Seq<Seq<char>>)
    ensures
        octets(parts) matches Some(a) ==> a.len() == parts.len(),
    decreases parts.len(),
{
    if parts.len() > 0 {
        lemma_octet_count(parts.drop_last());
    }
}

/// An IPv6 address is near where its first seven bits are those of unique local addresses, its first
/// ten those of link-local ones, or it is the loopback address.
pub proof fn law_near_addresses_are_known_by_their_first_bits(s: Seq<u16>)
    requires
        s.len() == 8,
    ensures
        is_nearby(AddressView::V6(s)) <==> s[0] / 0x200 == 0x7e || s[0] / 0x40 == 0x3fa || (s[7] == 1
            && forall|i: int| 0 <= i < 7 ==> #[trigger] s[i] == 0),
        is_loopback(AddressView::V6(s)) <==> s[7] == 1 && forall|i: int|
            0 <= i < 7 ==> #[trigger] s[i] == 0,
{
}

} // verus!
