use vstd::prelude::*;
use vstd::assert_seqs_equal;
use crate::bytes::{
    all_digits, copy_range, digit_run_end, digit_value, digits_value, find_byte, find_seq,
    is_ascii_digit, lemma_digit_run_facts, parse_decimal, scan_byte, scan_digit_run, scan_seq,
};

verus! {

/// The keepalive line prefix `PING :` as bytes.
pub open spec fn ping_prefix() -> Seq<u8> {
    seq![80u8, 73u8, 78u8, 71u8, 32u8, 58u8]
}

/// The keepalive reply token `PONG` as bytes.
pub open spec fn pong_prefix() -> Seq<u8> {
    seq![80u8, 79u8, 78u8, 71u8]
}

/// The join-confirmation pattern `JOIN :#` as bytes.
pub open spec fn join_pattern() -> Seq<u8> {
    seq![74u8, 79u8, 73u8, 78u8, 32u8, 58u8, 35u8]
}

/// The transfer-offer pattern `DCC SEND ` as bytes.
pub open spec fn dcc_pattern() -> Seq<u8> {
    seq![68u8, 67u8, 67u8, 32u8, 83u8, 69u8, 78u8, 68u8, 32u8]
}

/// A keepalive line: it begins with `PING :` followed by a decimal digit.
pub open spec fn is_ping_line(s: Seq<u8>) -> bool {
    s.len() >= 7 && s.take(6) == ping_prefix() && is_ascii_digit(s[6])
}

/// The reply owed to a keepalive line: `PONG` in place of `PING`, the rest
/// of the line kept verbatim.
pub open spec fn ping_reply(s: Seq<u8>) -> Seq<u8> {
    pong_prefix() + s.skip(4)
}

/// A join-confirmation line: it holds `JOIN :#` somewhere.
pub open spec fn is_join_line(s: Seq<u8>) -> bool {
    find_seq(s, join_pattern(), 0) >= 0
}

/// The filename field starting at `j` and the index just past it (past the
/// closing quote where the name is quoted, else at the delimiting space).
pub open spec fn dcc_name_part(s: Seq<u8>, j: int) -> Option<(Seq<u8>, int)> {
    if j < s.len() && s[j] == 34 {
        let k = find_byte(s, 34, j + 1);
        if k < 0 {
            None
        } else {
            Some((s.subrange(j + 1, k), k + 1))
        }
    } else {
        let k = find_byte(s, 32, j);
        if k < 0 {
            None
        } else {
            Some((s.subrange(j, k), k))
        }
    }
}

/// One space at `p` then a nonempty maximal digit run: the digits and the
/// index just past them.
pub open spec fn dcc_num_part(s: Seq<u8>, p: int) -> Option<(Seq<u8>, int)> {
    if 0 <= p < s.len() && s[p] == 32 {
        let q = digit_run_end(s, p + 1);
        if q > p + 1 {
            Some((s.subrange(p + 1, q), q))
        } else {
            None
        }
    } else {
        None
    }
}

/// The four raw fields of a transfer-offer line: filename, address integer,
/// port and size, each as the captured bytes, read after the leftmost
/// `DCC SEND `.
pub open spec fn dcc_capture(s: Seq<u8>) -> Option<(Seq<u8>, Seq<u8>, Seq<u8>, Seq<u8>)> {
    let i = find_seq(s, dcc_pattern(), 0);
    if i < 0 {
        None
    } else {
        match dcc_name_part(s, i + 9) {
            None => None,
            Some((name, p1)) => match dcc_num_part(s, p1) {
                None => None,
                Some((ip, p2)) => match dcc_num_part(s, p2) {
                    None => None,
                    Some((port, p3)) => match dcc_num_part(s, p3) {
                        None => None,
                        Some((size, p4)) => Some((name, ip, port, size)),
                    },
                },
            },
        }
    }
}

/// A decoded transfer offer: the filename verbatim (quotes stripped), the
/// peer address as the announced 32-bit integer, the peer port, and the
/// declared byte size.
pub struct DccOffer {
    pub filename: Vec<u8>,
    pub ip: u32,
    pub port: u16,
    pub size: u64,
}

/// The mathematical content of a decoded transfer offer.
pub struct OfferView {
    pub name: Seq<u8>,
    pub ip: u32,
    pub port: u16,
    pub size: u64,
}

impl View for DccOffer {
    type V = OfferView;

    open spec fn view(&self) -> OfferView {
        OfferView { name: self.filename@, ip: self.ip, port: self.port, size: self.size }
    }
}

/// The offer a line announces, where it announces one whose numeric fields
/// all decode.
pub open spec fn offer_of(line: Seq<u8>) -> Option<OfferView> {
    match dcc_capture(line) {
        None => None,
        Some((name, ip, port, size)) => {
            if digits_value(ip) <= u32::MAX && digits_value(port) <= u16::MAX && digits_value(size)
                <= u64::MAX {
                Some(
                    OfferView {
                        name: name,
                        ip: digits_value(ip) as u32,
                        port: digits_value(port) as u16,
                        size: digits_value(size) as u64,
                    },
                )
            } else {
                None
            }
        },
    }
}

/// What the transfer-offer rule says of one line: no offer at all, an offer
/// whose numeric fields do not decode, or a decoded offer.
pub enum DccScan {
    NotOffer,
    Malformed,
    Offer(DccOffer),
}

/// One of the four octets of a 32-bit address read big-endian: octet 0 is
/// the most significant.
pub open spec fn ip_octet(ip: u32, k: int) -> u8
    recommends
        0 <= k < 4,
{
    if k == 0 {
        (ip as int / 16777216) as u8
    } else if k == 1 {
        ((ip as int / 65536) % 256) as u8
    } else if k == 2 {
        ((ip as int / 256) % 256) as u8
    } else {
        (ip as int % 256) as u8
    }
}

/// A byte written in decimal, without leading zeros.
pub open spec fn u8_decimal(n: u8) -> Seq<u8> {
    if n >= 100 {
        seq![(48 + n as int / 100) as u8, (48 + (n as int / 10) % 10) as u8, (48 + n as int % 10) as u8]
    } else if n >= 10 {
        seq![(48 + n as int / 10) as u8, (48 + n as int % 10) as u8]
    } else {
        seq![(48 + n as int) as u8]
    }
}

/// The dotted-quad text of a 32-bit address read as four big-endian octets.
pub open spec fn ipv4_text(ip: u32) -> Seq<u8> {
    u8_decimal(ip_octet(ip, 0)) + seq![46u8] + u8_decimal(ip_octet(ip, 1)) + seq![46u8]
        + u8_decimal(ip_octet(ip, 2)) + seq![46u8] + u8_decimal(ip_octet(ip, 3))
}

/// The decimal text of a byte holds digits only and denotes that byte.
pub proof fn lemma_u8_decimal_value(n: u8)
    ensures
        all_digits(u8_decimal(n)),
        digits_value(u8_decimal(n)) == n,
{
    let s = u8_decimal(n);
    assert(digits_value(Seq::<u8>::empty()) == 0);
    if n >= 100 {
        let a = (48 + n as int / 100) as u8;
        let b = (48 + (n as int / 10) % 10) as u8;
        assert(0 <= n as int / 100 <= 9 && 0 <= (n as int / 10) % 10 <= 9 && 0 <= n as int % 10
            <= 9) by (nonlinear_arith);
        assert_seqs_equal!(s.drop_last() == seq![a, b]);
        assert_seqs_equal!(seq![a, b].drop_last() == seq![a]);
        assert_seqs_equal!(seq![a].drop_last() == Seq::<u8>::empty());
        assert(digit_value(a) == n as int / 100);
        assert(digits_value(seq![a]) == n as int / 100);
        assert(digits_value(seq![a, b]) == (n as int / 100) * 10 + (n as int / 10) % 10);
        assert(digits_value(s) == ((n as int / 100) * 10 + (n as int / 10) % 10) * 10 + n as int
            % 10);
        assert(n as int == ((n as int / 100) * 10 + (n as int / 10) % 10) * 10 + n as int % 10)
            by (nonlinear_arith);
    } else if n >= 10 {
        let a = (48 + n as int / 10) as u8;
        assert(0 <= n as int / 10 <= 9 && 0 <= n as int % 10 <= 9) by (nonlinear_arith)
            requires
                n < 100,
        ;
        assert_seqs_equal!(s.drop_last() == seq![a]);
        assert_seqs_equal!(seq![a].drop_last() == Seq::<u8>::empty());
        assert(digits_value(seq![a]) == n as int / 10);
        assert(digits_value(s) == (n as int / 10) * 10 + n as int % 10);
        assert(n as int == (n as int / 10) * 10 + n as int % 10) by (nonlinear_arith);
    } else {
        assert_seqs_equal!(s.drop_last() == Seq::<u8>::empty());
        assert(digits_value(s) == n);
    }
}

/// The four octets recompose the announced address read big-endian: the
/// dotted quad and the 32-bit integer name one and the same address.
pub proof fn lemma_ip_octets_recompose(ip: u32)
    ensures
        ip as int == ip_octet(ip, 0) as int * 16777216 + ip_octet(ip, 1) as int * 65536 + ip_octet(
            ip,
            2,
        ) as int * 256 + ip_octet(ip, 3) as int,
{
    assert(ip as int / 16777216 < 256) by (nonlinear_arith);
    assert(ip as int == (ip as int / 16777216) * 16777216 + ((ip as int / 65536) % 256) * 65536 + (
    (ip as int / 256) % 256) * 256 + ip as int % 256) by (nonlinear_arith);
}

/// Append one byte's decimal text.
fn push_u8_decimal(v: &mut Vec<u8>, n: u8)
    ensures
        final(v)@ == old(v)@ + u8_decimal(n),
{
    if n >= 100 {
        v.push(48 + n / 100);
        v.push(48 + (n / 10) % 10);
        v.push(48 + n % 10);
        proof {
            assert_seqs_equal!(v@ == old(v)@ + u8_decimal(n));
        }
    } else if n >= 10 {
        v.push(48 + n / 10);
        v.push(48 + n % 10);
        proof {
            assert_seqs_equal!(v@ == old(v)@ + u8_decimal(n));
        }
    } else {
        v.push(48 + n);
        proof {
            assert_seqs_equal!(v@ == old(v)@ + u8_decimal(n));
        }
    }
}

/// Write the announced 32-bit address as dotted-quad text, octets read
/// big-endian.
pub fn format_ipv4(ip: u32) -> (r: Vec<u8>)
    ensures
        r@ == ipv4_text(ip),
{
    let o0: u8 = (ip / 16777216) as u8;
    let o1: u8 = ((ip / 65536) % 256) as u8;
    let o2: u8 = ((ip / 256) % 256) as u8;
    let o3: u8 = (ip % 256) as u8;
    proof {
        assert(ip / 16777216 <= 255) by (nonlinear_arith);
    }
    let mut r: Vec<u8> = Vec::new();
    push_u8_decimal(&mut r, o0);
    r.push(46);
    push_u8_decimal(&mut r, o1);
    r.push(46);
    push_u8_decimal(&mut r, o2);
    r.push(46);
    push_u8_decimal(&mut r, o3);
    proof {
        assert_seqs_equal!(r@ == ipv4_text(ip));
    }
    r
}

/// Decide whether a line is a keepalive probe.
pub fn classify_ping(line: &[u8]) -> (r: bool)
    ensures
        r == is_ping_line(line@),
{
    if line.len() < 7 {
        return false;
    }
    proof {
        assert(line@.take(6)[0] == line@[0]);
        assert(line@.take(6)[1] == line@[1]);
        assert(line@.take(6)[2] == line@[2]);
        assert(line@.take(6)[3] == line@[3]);
        assert(line@.take(6)[4] == line@[4]);
        assert(line@.take(6)[5] == line@[5]);
    }
    if line[0] == 80 && line[1] == 73 && line[2] == 78 && line[3] == 71 && line[4] == 32
        && line[5] == 58 {
        proof {
            assert_seqs_equal!(line@.take(6) == ping_prefix());
        }
        48 <= line[6] && line[6] <= 57
    } else {
        false
    }
}

/// Build the reply owed to a keepalive line.
pub fn make_ping_reply(line: &[u8]) -> (r: Vec<u8>)
    requires
        is_ping_line(line@),
    ensures
        r@ == ping_reply(line@),
{
    let mut r: Vec<u8> = Vec::new();
    r.push(80);
    r.push(79);
    r.push(78);
    r.push(71);
    proof {
        assert_seqs_equal!(r@ == pong_prefix());
    }
    let mut i: usize = 4;
    while i < line.len()
        invariant
            4 <= i <= line@.len(),
            line@.len() >= 7,
            r@ == pong_prefix() + line@.subrange(4, i as int),
        decreases line@.len() - i,
    {
        r.push(line[i]);
        proof {
            assert_seqs_equal!(r@ == pong_prefix() + line@.subrange(4, i + 1));
        }
        i = i + 1;
    }
    proof {
        assert_seqs_equal!(line@.subrange(4, line@.len() as int) == line@.skip(4));
    }
    r
}

/// Build the `JOIN :#` pattern as a vector.
fn join_pattern_vec() -> (r: Vec<u8>)
    ensures
        r@ == join_pattern(),
{
    let mut r: Vec<u8> = Vec::new();
    r.push(74);
    r.push(79);
    r.push(73);
    r.push(78);
    r.push(32);
    r.push(58);
    r.push(35);
    proof {
        assert_seqs_equal!(r@ == join_pattern());
    }
    r
}

/// Decide whether a line confirms that the channel was joined.
pub fn classify_join(line: &[u8]) -> (r: bool)
    ensures
        r == is_join_line(line@),
{
    let pat = join_pattern_vec();
    match scan_seq(line, pat.as_slice()) {
        Some(k) => true,
        None => false,
    }
}

/// Build the `DCC SEND ` pattern as a vector.
fn dcc_pattern_vec() -> (r: Vec<u8>)
    ensures
        r@ == dcc_pattern(),
{
    let mut r: Vec<u8> = Vec::new();
    r.push(68);
    r.push(67);
    r.push(67);
    r.push(32);
    r.push(83);
    r.push(69);
    r.push(78);
    r.push(68);
    r.push(32);
    proof {
        assert_seqs_equal!(r@ == dcc_pattern());
    }
    r
}

/// Find one numeric field: a space at `p`, then at least one digit.
/// Returns the bounds of the digits and hands back where the field ends.
fn scan_num_part(s: &[u8], p: usize) -> (r: Option<(usize, usize)>)
    requires
        p <= s@.len(),
    ensures
        match r {
            Some((a, q)) => {
                &&& dcc_num_part(s@, p as int) == Some((s@.subrange(a as int, q as int), q as int))
                &&& a == p + 1
                &&& p + 1 <= q <= s@.len()
                &&& all_digits(s@.subrange(a as int, q as int))
            },
            None => dcc_num_part(s@, p as int) is None,
        },
{
    if p >= s.len() || s[p] != 32 {
        return None;
    }
    let q = scan_digit_run(s, p + 1);
    proof {
        lemma_digit_run_facts(s@, p + 1);
    }
    if q > p + 1 {
        Some((p + 1, q))
    } else {
        None
    }
}

/// Apply the transfer-offer rule to one line: recognise the announcement,
/// capture the filename verbatim, and decode the three numeric fields.
pub fn parse_dcc_send(line: &[u8]) -> (r: DccScan)
    ensures
        match r {
            DccScan::NotOffer => dcc_capture(line@) is None && offer_of(line@) is None,
            DccScan::Malformed => {
                &&& dcc_capture(line@) matches Some((name, ip, port, size))
                &&& (digits_value(ip) > u32::MAX || digits_value(port) > u16::MAX
                    || digits_value(size) > u64::MAX)
                &&& offer_of(line@) is None
            },
            DccScan::Offer(o) => {
                &&& dcc_capture(line@) matches Some((name, ip, port, size))
                &&& o.filename@ == name
                &&& o.ip as nat == digits_value(ip)
                &&& o.port as nat == digits_value(port)
                &&& o.size as nat == digits_value(size)
                &&& offer_of(line@) == Some(o@)
            },
        },
{
    let n = line.len();
    let pat = dcc_pattern_vec();
    let i = match scan_seq(line, pat.as_slice()) {
        None => {
            return DccScan::NotOffer;
        },
        Some(i) => i,
    };
    let j = i + 9;
    let name_a: usize;
    let name_b: usize;
    let p1: usize;
    if j < n && line[j] == 34 {
        match scan_byte(line, 34, j + 1) {
            None => {
                return DccScan::NotOffer;
            },
            Some(k) => {
                name_a = j + 1;
                name_b = k;
                p1 = k + 1;
            },
        }
    } else {
        match scan_byte(line, 32, j) {
            None => {
                return DccScan::NotOffer;
            },
            Some(k) => {
                name_a = j;
                name_b = k;
                p1 = k;
            },
        }
    }
    let (ip_a, ip_q) = match scan_num_part(line, p1) {
        None => {
            return DccScan::NotOffer;
        },
        Some(x) => x,
    };
    let (port_a, port_q) = match scan_num_part(line, ip_q) {
        None => {
            return DccScan::NotOffer;
        },
        Some(x) => x,
    };
    let (size_a, size_q) = match scan_num_part(line, port_q) {
        None => {
            return DccScan::NotOffer;
        },
        Some(x) => x,
    };
    let ip_v = match parse_decimal(line, ip_a, ip_q) {
        None => {
            return DccScan::Malformed;
        },
        Some(v) => v,
    };
    let port_v = match parse_decimal(line, port_a, port_q) {
        None => {
            return DccScan::Malformed;
        },
        Some(v) => v,
    };
    let size_v = match parse_decimal(line, size_a, size_q) {
        None => {
            return DccScan::Malformed;
        },
        Some(v) => v,
    };
    if ip_v > 0xFFFFFFFF || port_v > 0xFFFF {
        return DccScan::Malformed;
    }
    let filename = copy_range(line, name_a, name_b);
    DccScan::Offer(DccOffer {
        filename,
        ip: ip_v as u32,
        port: port_v as u16,
        size: size_v,
    })
}

} // verus!
