//! Command-line values handed to the knock engine, and their parsers.

use std::sync::Arc;
use vstd::prelude::*;
use vstd::string::*;

verus! {

/// Supported knock protocols.
#[derive(Clone, Copy, Debug, PartialEq, Eq, Structural)]
pub enum Protocol {
    Tcp,
    Udp,
}

/// The configuration of a run, read once from the command line and then only
/// read: the target, the protocol, the ports in knock order, the per-attempt
/// timeout, the base inter-knock delay, the bound on knocks in flight, the
/// optional UDP payload, the attempts per knock and the backoff between them.
pub struct Cli {
    pub host: String,
    pub protocol: Protocol,
    pub sequence: Vec<u16>,
    pub timeout: u64,
    pub delay: u64,
    pub concurrency: usize,
    pub payload: Option<Arc<Vec<u8>>>,
    pub retries: usize,
    pub backoff: u64,
}

#[verifier::external_type_specification]
#[verifier::external_body]
pub struct ExFromHexError(hex::FromHexError);

/// `c` is a hexadecimal digit, in either case.
pub open spec fn is_hex_digit(c: char) -> bool {
    ('0' <= c && c <= '9') || ('a' <= c && c <= 'f') || ('A' <= c && c <= 'F')
}

/// The value of the hexadecimal digit `c`.
pub open spec fn hex_digit_value(c: char) -> int {
    if '0' <= c && c <= '9' {
        c as int - '0' as int
    } else if 'a' <= c && c <= 'f' {
        c as int - 'a' as int + 10
    } else {
        c as int - 'A' as int + 10
    }
}

/// `s` is hexadecimal text: an even number of hexadecimal digits.
pub open spec fn is_hex_text(s: Seq<char>) -> bool {
    &&& s.len() % 2 == 0
    &&& forall|i: int| 0 <= i < s.len() ==> is_hex_digit(#[trigger] s[i])
}

/// The bytes that hexadecimal text `s` spells, two digits each, high digit first.
pub open spec fn hex_bytes(s: Seq<char>) -> Seq<u8> {
    Seq::new(
        (s.len() / 2) as nat,
        |i: int| (16 * hex_digit_value(s[2 * i]) + hex_digit_value(s[2 * i + 1])) as u8,
    )
}

/// Relies on `hex::decode`: it accepts exactly an even number of hexadecimal
/// digits of either case and gives one byte per pair, high digit first.
#[verifier::external_body]
fn hex_decode(s: &str) -> (r: Result<Vec<u8>, hex::FromHexError>)
    ensures
        match r {
            Ok(v) => is_hex_text(s@) && v@ == hex_bytes(s@),
            Err(_) => !is_hex_text(s@),
        },
{
    hex::decode(s)
}

/// Message prefix for a payload that is not hexadecimal text.
pub open spec fn hex_error_prefix() -> Seq<char> {
    "invalid hex payload: "@
}

/// Decodes a hexadecimal payload such as `"deadbeef"`.
pub fn parse_hex_payload(s: &str) -> (r: Result<Arc<Vec<u8>>, String>)
    ensures
        match r {
            Ok(v) => is_hex_text(s@) && (*v)@ == hex_bytes(s@),
            Err(e) => !is_hex_text(s@) && e@.len() >= hex_error_prefix().len()
                && e@.subrange(0, hex_error_prefix().len() as int) == hex_error_prefix(),
        },
{
    match hex_decode(s) {
        Ok(v) => Ok(Arc::new(v)),
        Err(e) => {
            let mut m = String::from_str("invalid hex payload: ");
            let detail = e.to_string();
            m.append(detail.as_str());
            proof {
                reveal_strlit("invalid hex payload: ");
                assert(m@.subrange(0, hex_error_prefix().len() as int) =~= hex_error_prefix());
            }
            Err(m)
        },
    }
}

/// `c` is an ASCII decimal digit.
pub open spec fn is_digit(c: char) -> bool {
    '0' <= c && c <= '9'
}

/// Numeric value of a string of decimal digits, most significant first.
pub open spec fn digits_value(d: Seq<char>) -> nat
    decreases d.len(),
{
    if d.len() == 0 {
        0
    } else {
        digits_value(d.drop_last()) * 10 + ((d.last() as u32 - '0' as u32) as nat)
    }
}

/// The digits of a port argument: an optional leading `+` is dropped.
pub open spec fn port_digits(s: Seq<char>) -> Seq<char> {
    if s.len() > 0 && s[0] == '+' {
        s.drop_first()
    } else {
        s
    }
}

/// `s` is the decimal text of a 16-bit port number (what `u16::from_str` accepts).
pub open spec fn is_port_text(s: Seq<char>) -> bool {
    let d = port_digits(s);
    &&& d.len() > 0
    &&& forall|i: int| 0 <= i < d.len() ==> is_digit(#[trigger] d[i])
    &&& digits_value(d) <= 65535
}

/// The port that `s` denotes, when `is_port_text(s)`.
pub open spec fn port_value(s: Seq<char>) -> u16 {
    digits_value(port_digits(s)) as u16
}

/// Message for an argument that is not a port.
pub open spec fn port_error_text(s: Seq<char>) -> Seq<char> {
    seq!['\''] + s + "' is not a valid port"@
}

proof fn lemma_digits_value_step(d: Seq<char>, c: char)
    requires
        is_digit(c),
    ensures
        digits_value(d.push(c)) == digits_value(d) * 10 + ((c as u32 - '0' as u32) as nat),
{
    assert(d.push(c).drop_last() =~= d);
}

/// The port that `s` denotes, or `None` where `s` is no port text.
fn port_of(s: &str) -> (r: Option<u16>)
    ensures
        r == (if is_port_text(s@) { Some(port_value(s@)) } else { None::<u16> }),
{
    let n = s.unicode_len();
    let mut i: usize = 0;
    if n > 0 && s.get_char(0) == '+' {
        i = 1;
    }
    let ghost d = port_digits(s@);
    assert(d =~= s@.subrange(i as int, n as int));
    if i == n {
        return None;
    }
    let start = i;
    // the value read so far, held at 65536 once it is past the largest port
    let mut acc: u32 = 0;
    while i < n
        invariant
            start <= i <= n,
            n == s@.len(),
            d == port_digits(s@),
            d =~= s@.subrange(start as int, n as int),
            forall|j: int| 0 <= j < i - start ==> is_digit(#[trigger] d[j]),
            acc as nat == if digits_value(d.subrange(0, i - start)) <= 65536 {
                digits_value(d.subrange(0, i - start))
            } else {
                65536
            },
        decreases n - i,
    {
        let c = s.get_char(i);
        if !('0' <= c && c <= '9') {
            assert(!is_digit(d[i - start]));
            return None;
        }
        let ghost p = d.subrange(0, i - start);
        proof {
            lemma_digits_value_step(p, c);
            assert(d.subrange(0, i + 1 - start) =~= p.push(c));
        }
        let dv: u32 = (c as u32) - ('0' as u32);
        let next: u32 = acc * 10 + dv;
        acc = if next > 65536 { 65536 } else { next };
        i = i + 1;
    }
    assert(d.subrange(0, n - start) =~= d);
    if acc > 65535 {
        None
    } else {
        Some(acc as u16)
    }
}

/// Parses one port argument.
pub fn parse_port(s: &str) -> (r: Result<u16, String>)
    ensures
        match r {
            Ok(p) => is_port_text(s@) && p == port_value(s@),
            Err(e) => !is_port_text(s@) && e@ == port_error_text(s@),
        },
{
    match port_of(s) {
        Some(p) => Ok(p),
        None => Err(port_error(s)),
    }
}

/// Builds the message for an argument `s` that is not a port.
fn port_error(s: &str) -> (e: String)
    ensures
        e@ == port_error_text(s@),
{
    let mut e = String::from_str("'");
    e.append(s);
    e.append("' is not a valid port");
    proof {
        reveal_strlit("'");
        reveal_strlit("' is not a valid port");
    }
    assert(e@ =~= port_error_text(s@));
    e
}

/// `c` has the Unicode White_Space property (what `char::is_whitespace` tests).
pub open spec fn is_space(c: char) -> bool {
    ||| ('\u{9}' <= c && c <= '\u{d}')
    ||| c == ' '
    ||| c == '\u{85}'
    ||| c == '\u{a0}'
    ||| c == '\u{1680}'
    ||| ('\u{2000}' <= c && c <= '\u{200a}')
    ||| c == '\u{2028}'
    ||| c == '\u{2029}'
    ||| c == '\u{202f}'
    ||| c == '\u{205f}'
    ||| c == '\u{3000}'
}

fn space(c: char) -> (r: bool)
    ensures
        r == is_space(c),
{
    ('\u{9}' <= c && c <= '\u{d}') || c == ' ' || c == '\u{85}' || c == '\u{a0}' || c == '\u{1680}'
        || ('\u{2000}' <= c && c <= '\u{200a}') || c == '\u{2028}' || c == '\u{2029}' || c
        == '\u{202f}' || c == '\u{205f}' || c == '\u{3000}'
}

/// `s` without leading white space.
pub open spec fn trim_start(s: Seq<char>) -> Seq<char>
    decreases s.len(),
{
    if s.len() > 0 && is_space(s[0]) {
        trim_start(s.drop_first())
    } else {
        s
    }
}

/// `s` without trailing white space.
pub open spec fn trim_end(s: Seq<char>) -> Seq<char>
    decreases s.len(),
{
    if s.len() > 0 && is_space(s.last()) {
        trim_end(s.drop_last())
    } else {
        s
    }
}

/// `s` without leading and trailing white space (what `str::trim` gives).
pub open spec fn trim(s: Seq<char>) -> Seq<char> {
    trim_end(trim_start(s))
}

/// The comma-separated fields of `s`, as `str::split(',')` gives them: one
/// more than there are commas, empty ones included.
pub open spec fn split_commas(s: Seq<char>) -> Seq<Seq<char>>
    decreases s.len(),
{
    if s.len() == 0 {
        seq![Seq::empty()]
    } else {
        let init = split_commas(s.drop_last());
        if s.last() == ',' {
            init.push(Seq::empty())
        } else {
            init.update(init.len() - 1, init.last().push(s.last()))
        }
    }
}

proof fn lemma_split_commas_len(s: Seq<char>)
    ensures
        split_commas(s).len() >= 1,
    decreases s.len(),
{
    if s.len() > 0 {
        lemma_split_commas_len(s.drop_last());
    }
}

/// The fields of `s` that a prefix of it has completed are fields of `s`.
proof fn lemma_prefix_fields(s: Seq<char>, m: int)
    requires
        0 <= m <= s.len(),
    ensures
        split_commas(s).len() >= split_commas(s.subrange(0, m)).len(),
        forall|j: int|
            0 <= j < split_commas(s.subrange(0, m)).len() - 1 ==> split_commas(s)[j]
                == #[trigger] split_commas(s.subrange(0, m))[j],
    decreases s.len() - m,
{
    if m == s.len() {
        assert(s.subrange(0, m) =~= s);
    } else {
        lemma_prefix_fields(s, m + 1);
        let p = s.subrange(0, m);
        let q = s.subrange(0, m + 1);
        assert(q.drop_last() =~= p);
        lemma_split_commas_len(p);
        let sp = split_commas(p);
        let sq = split_commas(q);
        assert(sq.len() >= sp.len());
        assert forall|j: int| 0 <= j < sp.len() - 1 implies split_commas(s)[j] == #[trigger] sp[j] by {
            assert(sq[j] == sp[j]);
        }
    }
}

/// Each field of a port list, trimmed, is a port.
pub open spec fn all_ports(fields: Seq<Seq<char>>) -> bool {
    forall|j: int| 0 <= j < fields.len() ==> is_port_text(trim(#[trigger] fields[j]))
}

/// `trim(s@[from..to])`, found as the bounds `[a, b)` of the trimmed part.
fn trim_bounds(s: &str, from: usize, to: usize) -> (r: (usize, usize))
    requires
        from <= to <= s@.len(),
    ensures
        from <= r.0 <= r.1 <= to,
        s@.subrange(r.0 as int, r.1 as int) == trim(s@.subrange(from as int, to as int)),
{
    let mut a = from;
    while a < to && space(s.get_char(a))
        invariant
            from <= a <= to <= s@.len(),
            trim_start(s@.subrange(from as int, to as int)) == trim_start(
                s@.subrange(a as int, to as int),
            ),
        decreases to - a,
    {
        assert(s@.subrange(a as int, to as int).drop_first() =~= s@.subrange(a + 1, to as int));
        a = a + 1;
    }
    let ghost t = s@.subrange(a as int, to as int);
    assert(trim_start(t) == t);
    let mut b = to;
    while b > a && space(s.get_char(b - 1))
        invariant
            from <= a <= b <= to <= s@.len(),
            t == s@.subrange(a as int, to as int),
            trim_end(t) == trim_end(s@.subrange(a as int, b as int)),
        decreases b - a,
    {
        assert(s@.subrange(a as int, b as int).drop_last() =~= s@.subrange(a as int, b - 1));
        b = b - 1;
    }
    (a, b)
}

/// Parses a comma-separated port list such as `"7000, 8000,9000"`. Each
/// field is trimmed of white space; the first field that is no port gives
/// the error, which quotes it untrimmed.
pub fn parse_ports(s: &str) -> (r: Result<Vec<u16>, String>)
    ensures
        match r {
            Ok(v) => {
                &&& all_ports(split_commas(s@))
                &&& v@.len() == split_commas(s@).len()
                &&& forall|j: int|
                    0 <= j < v@.len() ==> #[trigger] v@[j] == port_value(trim(split_commas(s@)[j]))
            },
            Err(e) => exists|k: int|
                #![trigger split_commas(s@)[k]]
                0 <= k < split_commas(s@).len() && !is_port_text(trim(split_commas(s@)[k])) && (forall|
                    j: int,
                | 0 <= j < k ==> is_port_text(trim(#[trigger] split_commas(s@)[j]))) && e@
                    == port_error_text(split_commas(s@)[k]),
        },
{
    let n = s.unicode_len();
    let mut v: Vec<u16> = Vec::new();
    let mut start: usize = 0;
    let mut i: usize = 0;
    let ghost done: Seq<Seq<char>> = Seq::empty();
    assert(s@.subrange(0, 0) =~= Seq::<char>::empty());
    assert(done.push(s@.subrange(0, 0)) =~= seq![Seq::<char>::empty()]);
    while i < n
        invariant
            n == s@.len(),
            start <= i <= n,
            split_commas(s@.subrange(0, i as int)) == done.push(s@.subrange(start as int, i as int)),
            v@.len() == done.len(),
            forall|j: int| 0 <= j < done.len() ==> is_port_text(trim(#[trigger] done[j])),
            forall|j: int| 0 <= j < done.len() ==> #[trigger] v@[j] == port_value(trim(done[j])),
        decreases n - i,
    {
        let ghost pre = s@.subrange(0, i + 1);
        proof {
            assert(pre.drop_last() =~= s@.subrange(0, i as int));
        }
        if s.get_char(i) == ',' {
            let ghost field = s@.subrange(start as int, i as int);
            match field_port(s, start, i) {
                Ok(p) => {
                    v.push(p);
                },
                Err(e) => {
                    proof {
                        let fields = split_commas(s@);
                        let k = done.len() as int;
                        let sp = split_commas(pre);
                        assert(sp == done.push(field).push(Seq::empty()));
                        lemma_prefix_fields(s@, i as int + 1);
                        assert(fields[k] == sp[k]);
                        assert forall|j: int| 0 <= j < k implies fields[j] == done[j] by {
                            assert(fields[j] == sp[j]);
                        }
                    }
                    return Err(e);
                },
            }
            proof {
                assert(split_commas(pre) == done.push(field).push(Seq::empty()));
                assert(s@.subrange(i + 1, i + 1) =~= Seq::<char>::empty());
                done = done.push(field);
            }
            start = i + 1;
        } else {
            proof {
                assert(s@.subrange(start as int, i + 1) =~= s@.subrange(start as int, i as int).push(
                    s@[i as int],
                ));
                assert(done.push(s@.subrange(start as int, i as int)).update(
                    done.len() as int,
                    s@.subrange(start as int, i + 1),
                ) =~= done.push(s@.subrange(start as int, i + 1)));
            }
        }
        i = i + 1;
    }
    assert(s@.subrange(0, n as int) =~= s@);
    let ghost field = s@.subrange(start as int, n as int);
    assert(split_commas(s@) == done.push(field));
    match field_port(s, start, n) {
        Ok(p) => {
            v.push(p);
            proof {
                done = done.push(field);
            }
            assert(forall|j: int| 0 <= j < done.len() ==> done[j] == split_commas(s@)[j]);
            Ok(v)
        },
        Err(e) => {
            proof {
                let fields = split_commas(s@);
                let k = done.len() as int;
                assert forall|j: int| 0 <= j < k implies fields[j] == done[j] by {
                    assert(fields[j] == done.push(field)[j]);
                }
                assert(fields[k] == field);
            }
            Err(e)
        },
    }
}

/// The port in field `s@[from..to]` of a port list, trimmed.
fn field_port(s: &str, from: usize, to: usize) -> (r: Result<u16, String>)
    requires
        from <= to <= s@.len(),
    ensures
        match r {
            Ok(p) => is_port_text(trim(s@.subrange(from as int, to as int))) && p == port_value(
                trim(s@.subrange(from as int, to as int)),
            ),
            Err(e) => !is_port_text(trim(s@.subrange(from as int, to as int))) && e@
                == port_error_text(s@.subrange(from as int, to as int)),
        },
{
    let (a, b) = trim_bounds(s, from, to);
    let piece = s.substring_char(a, b);
    match port_of(piece) {
        Some(p) => Ok(p),
        None => {
            let part = s.substring_char(from, to);
            Err(port_error(part))
        },
    }
}

} // verus!
