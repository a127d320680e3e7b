//! The values that the desktop front end of the client exchanges with its
//! window: connection settings, command results and event payloads, with
//! virtual addresses written as dotted quads.

use vstd::prelude::*;
use vstd::utf8::*;
use crate::ipv4::{spec_ipv4, spec_octets, ipv4_octets, lemma_ipv4_of_octets};
use crate::protocol::string_from_utf8;
use vstd::string::StringExecFns;

verus! {

broadcast use vstd::seq_lib::group_seq_properties;

/// Where to connect and under which name.
#[derive(Debug, Clone)]
pub struct ConnectParams {
    pub server_ip: String,
    pub port: String,
    pub nickname: String,
}

/// The outcome of a command.
#[derive(Debug, Clone)]
pub struct SimpleResult {
    pub success: bool,
    pub error: Option<String>,
}

/// A chat line.
#[derive(Debug, Clone)]
pub struct ChatEvent {
    pub sender: String,
    pub content: String,
    pub timestamp: u64,
}

/// A peer that joined or left, with its virtual address as a dotted quad.
#[derive(Debug, Clone)]
pub struct PeerEvent {
    pub nickname: String,
    pub virtual_ip: String,
}

/// A room was opened; the opener's virtual address as a dotted quad.
#[derive(Debug, Clone)]
pub struct CreateRoomOkEvent {
    pub room_id: String,
    pub virtual_ip: String,
}

/// The decimal digits of `n`, as ASCII bytes, without leading zeros.
pub open spec fn decimal_bytes(n: u8) -> Seq<u8> {
    if n < 10 {
        seq![(48 + n) as u8]
    } else if n < 100 {
        seq![(48 + n / 10) as u8, (48 + n % 10) as u8]
    } else {
        seq![(48 + n / 100) as u8, (48 + (n / 10) % 10) as u8, (48 + n % 10) as u8]
    }
}

/// `a.b.c.d` in ASCII bytes, each octet in decimal.
pub open spec fn dotted_quad_bytes(ip: u32) -> Seq<u8> {
    let o = spec_octets(ip);
    decimal_bytes(o.0) + seq![46u8] + decimal_bytes(o.1) + seq![46u8] + decimal_bytes(o.2) + seq![
        46u8,
    ] + decimal_bytes(o.3)
}

/// `a.b.c.d`, each octet in decimal.
pub open spec fn dotted_quad(ip: u32) -> Seq<char> {
    dotted_quad_bytes(ip).map_values(|b: u8| b as char)
}

/// Whether every byte of `s` is an ASCII digit.
pub open spec fn is_digits(s: Seq<u8>) -> bool {
    forall|i: int| 0 <= i < s.len() ==> 48 <= #[trigger] s[i] <= 57
}

/// The number that the ASCII digits `s` write in base ten.
pub open spec fn digits_value(s: Seq<u8>) -> int
    decreases s.len(),
{
    if s.len() == 0 {
        0
    } else {
        digits_value(s.drop_last()) * 10 + (s.last() - 48)
    }
}

/// The decimal text of an octet is one to three digits, with no leading
/// zero, that read back as the octet.
pub proof fn lemma_decimal_reads_back(n: u8)
    ensures
        is_digits(decimal_bytes(n)),
        1 <= decimal_bytes(n).len() <= 3,
        decimal_bytes(n).len() > 1 ==> decimal_bytes(n)[0] != 48,
        digits_value(decimal_bytes(n)) == n,
{
    let s = decimal_bytes(n);
    reveal_with_fuel(digits_value, 4);
    if n < 10 {
        assert(s.drop_last() =~= Seq::<u8>::empty());
    } else if n < 100 {
        assert(s.drop_last() =~= seq![(48 + n / 10) as u8]);
        assert(s.drop_last().drop_last() =~= Seq::<u8>::empty());
    } else {
        assert(s.drop_last() =~= seq![(48 + n / 100) as u8, (48 + (n / 10) % 10) as u8]);
        assert(s.drop_last().drop_last() =~= seq![(48 + n / 100) as u8]);
        assert(s.drop_last().drop_last().drop_last() =~= Seq::<u8>::empty());
    }
}

/// A dotted quad is four runs of digits joined by three dots; read in
/// base ten, the runs are the octets of the address, most significant
/// first, and they make the address again.
pub proof fn lemma_dotted_quad_reads_back(ip: u32)
    ensures
        exists|s0: Seq<u8>, s1: Seq<u8>, s2: Seq<u8>, s3: Seq<u8>|
            {
                &&& dotted_quad_bytes(ip) == s0 + seq![46u8] + s1 + seq![46u8] + s2 + seq![46u8] + s3
                &&& is_digits(s0) && is_digits(s1) && is_digits(s2) && is_digits(s3)
                &&& 1 <= s0.len() && 1 <= s1.len() && 1 <= s2.len() && 1 <= s3.len()
                &&& 0 <= digits_value(s0) < 256 && 0 <= digits_value(s1) < 256
                &&& 0 <= digits_value(s2) < 256 && 0 <= digits_value(s3) < 256
                &&& spec_ipv4(
                    digits_value(s0) as u8,
                    digits_value(s1) as u8,
                    digits_value(s2) as u8,
                    digits_value(s3) as u8,
                ) == ip
            },
{
    let o = spec_octets(ip);
    lemma_decimal_reads_back(o.0);
    lemma_decimal_reads_back(o.1);
    lemma_decimal_reads_back(o.2);
    lemma_decimal_reads_back(o.3);
    lemma_ipv4_of_octets(ip);
    let s0 = decimal_bytes(o.0);
    let s1 = decimal_bytes(o.1);
    let s2 = decimal_bytes(o.2);
    let s3 = decimal_bytes(o.3);
    assert(digits_value(s0) as u8 == o.0);
    assert(digits_value(s1) as u8 == o.1);
    assert(digits_value(s2) as u8 == o.2);
    assert(digits_value(s3) as u8 == o.3);
    assert(dotted_quad_bytes(ip) == s0 + seq![46u8] + s1 + seq![46u8] + s2 + seq![46u8] + s3);
}

fn push_decimal(out: &mut Vec<u8>, n: u8)
    ensures
        final(out)@ == old(out)@ + decimal_bytes(n),
{
    if n < 10 {
        out.push(48 + n);
    } else if n < 100 {
        out.push(48 + n / 10);
        out.push(48 + n % 10);
    } else {
        out.push(48 + n / 100);
        out.push(48 + (n / 10) % 10);
        out.push(48 + n % 10);
    }
    assert(final(out)@ =~= old(out)@ + decimal_bytes(n));
}

proof fn lemma_dotted_quad_utf8(ip: u32)
    ensures
        encode_utf8(dotted_quad(ip)) == dotted_quad_bytes(ip),
{
    let bytes = dotted_quad_bytes(ip);
    let chars = dotted_quad(ip);
    assert(forall|i: int| 0 <= i < bytes.len() ==> #[trigger] bytes[i] < 128);
    assert(is_ascii_chars(chars));
    is_ascii_chars_encode_utf8(chars);
    assert(encode_utf8(chars) =~= bytes);
}

/// `ip` as a dotted quad, `a.b.c.d`, each octet in decimal.
pub fn format_ipv4(ip: u32) -> (s: String)
    ensures
        s@ == dotted_quad(ip),
{
    broadcast use encode_utf8_valid_utf8, encode_utf8_decode_utf8;

    let (a, b, c, d) = ipv4_octets(ip);
    let mut bytes: Vec<u8> = Vec::new();
    push_decimal(&mut bytes, a);
    bytes.push(46);
    push_decimal(&mut bytes, b);
    bytes.push(46);
    push_decimal(&mut bytes, c);
    bytes.push(46);
    push_decimal(&mut bytes, d);
    proof {
        assert(bytes@ =~= dotted_quad_bytes(ip));
        lemma_dotted_quad_utf8(ip);
    }
    match string_from_utf8(bytes) {
        Some(s) => {
            assert(decode_utf8(encode_utf8(s@)) == s@);
            assert(decode_utf8(encode_utf8(dotted_quad(ip))) == dotted_quad(ip));
            s
        },
        None => {
            proof {
                assert(false);
            }
            String::new()
        },
    }
}


impl ConnectParams {
    /// The relay's address as `server_ip:port`, ready to be parsed as a
    /// socket address.
    pub fn server_address(&self) -> (addr: String)
        ensures
            addr@ == self.server_ip@ + seq![':'] + self.port@,
    {
        let mut addr = self.server_ip.clone();
        addr.append(":");
        addr.append(self.port.as_str());
        proof {
            reveal_strlit(":");
        }
        assert(addr@ =~= self.server_ip@ + seq![':'] + self.port@);
        addr
    }
}

impl SimpleResult {
    /// The command succeeded.
    pub fn ok() -> (r: SimpleResult)
        ensures
            r.success,
            r.error is None,
    {
        SimpleResult { success: true, error: None }
    }

    /// The command failed, for `error`.
    pub fn failure(error: String) -> (r: SimpleResult)
        ensures
            !r.success,
            r.error == Some(error),
    {
        SimpleResult { success: false, error: Some(error) }
    }
}

impl PeerEvent {
    /// The event for the peer `nickname` with the virtual address `virtual_ip`.
    pub fn new(nickname: String, virtual_ip: u32) -> (e: PeerEvent)
        ensures
            e.nickname == nickname,
            e.virtual_ip@ == dotted_quad(virtual_ip),
    {
        PeerEvent { nickname, virtual_ip: format_ipv4(virtual_ip) }
    }
}

impl CreateRoomOkEvent {
    /// The event for the room `room_id`, opened under the virtual address `virtual_ip`.
    pub fn new(room_id: String, virtual_ip: u32) -> (e: CreateRoomOkEvent)
        ensures
            e.room_id == room_id,
            e.virtual_ip@ == dotted_quad(virtual_ip),
    {
        CreateRoomOkEvent { room_id, virtual_ip: format_ipv4(virtual_ip) }
    }
}

/// The round trip of a ping in milliseconds: now minus the time it was
/// sent, or 0 when the clock reads earlier than that.
pub fn ping_millis(now: u64, sent: u64) -> (ms: u64)
    ensures
        ms == if now >= sent {
            (now - sent) as u64
        } else {
            0
        },
{
    now.saturating_sub(sent)
}

} // verus!
