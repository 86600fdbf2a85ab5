//! The rendezvous file of the loopback-socket agent: a decimal port number
//! on a line of its own, followed by a 16-byte nonce. A client connects to
//! that port on 127.0.0.1 and sends the nonce as the first bytes on the
//! connection; that is the whole handshake.

use vstd::prelude::*;

verus! {

/// Length of the nonce, in bytes.
pub const NONCE_LEN: usize = 16;

/// Why a rendezvous file was refused.
#[derive(Debug, Clone, Copy, PartialEq, Eq, Structural)]
pub enum Error {
    /// The first line is not an unsigned 16-bit decimal number.
    PortParse,
    /// Fewer than 16 bytes follow the first line.
    NonceParse,
}

/// `k` is the first line break of `b`.
pub open spec fn first_break_at(b: Seq<u8>, k: int) -> bool {
    0 <= k < b.len() && b[k] == 0x0au8 && forall|j: int| 0 <= j < k ==> b[j] != 0x0au8
}

/// Where the first line of `b` ends: just after its first line break, or at
/// the end of `b` when it has none.
pub open spec fn line_end(b: Seq<u8>) -> int {
    if exists|k: int| first_break_at(b, k) {
        (choose|k: int| first_break_at(b, k)) + 1
    } else {
        b.len() as int
    }
}

/// ASCII white space, as `trim` removes it.
pub open spec fn is_space(c: u8) -> bool {
    c == 0x20u8 || (0x09u8 <= c && c <= 0x0du8)
}

pub open spec fn is_digit(c: u8) -> bool {
    0x30u8 <= c && c <= 0x39u8
}

pub open spec fn trim_start(s: Seq<u8>) -> Seq<u8>
    decreases s.len(),
{
    if s.len() > 0 && is_space(s[0]) {
        trim_start(s.drop_first())
    } else {
        s
    }
}

pub open spec fn trim_end(s: Seq<u8>) -> Seq<u8>
    decreases s.len(),
{
    if s.len() > 0 && is_space(s.last()) {
        trim_end(s.drop_last())
    } else {
        s
    }
}

/// `s` without white space at either end.
pub open spec fn trim(s: Seq<u8>) -> Seq<u8> {
    trim_end(trim_start(s))
}

/// `s` without one leading `+`.
pub open spec fn unsigned_digits(s: Seq<u8>) -> Seq<u8> {
    if s.len() > 0 && s[0] == 0x2bu8 {
        s.drop_first()
    } else {
        s
    }
}

/// The value of a string of decimal digits.
pub open spec fn decimal_value(d: Seq<u8>) -> nat
    decreases d.len(),
{
    if d.len() == 0 {
        0
    } else {
        decimal_value(d.drop_last()) * 10 + (d.last() - 0x30) as nat
    }
}

/// The port that a line gives: after white space is trimmed and one `+`
/// dropped, one or more decimal digits whose value fits 16 bits.
pub open spec fn port_of(line: Seq<u8>) -> Option<u16> {
    let d = unsigned_digits(trim(line));
    if d.len() > 0 && (forall|i: int| 0 <= i < d.len() ==> is_digit(#[trigger] d[i]))
        && decimal_value(d) <= 0xffff {
        Some(decimal_value(d) as u16)
    } else {
        None
    }
}

/// What a rendezvous file holds: the port and the nonce, or why it is
/// refused. A missing nonce is found before a bad port.
pub open spec fn rendezvous_of(b: Seq<u8>) -> Result<(u16, Seq<u8>), Error> {
    let end = line_end(b);
    if b.len() < end + NONCE_LEN {
        Err(Error::NonceParse)
    } else {
        match port_of(b.subrange(0, end)) {
            Some(port) => Ok((port, b.subrange(end, end + NONCE_LEN))),
            None => Err(Error::PortParse),
        }
    }
}

proof fn lemma_first_break_unique(b: Seq<u8>, k: int)
    requires
        first_break_at(b, k),
    ensures
        line_end(b) == k + 1,
{
    let c = choose|c: int| first_break_at(b, c);
    assert(first_break_at(b, c));
    if c < k {
        assert(b[c] != 0x0au8);
    } else if k < c {
        assert(b[k] != 0x0au8);
    }
}

proof fn lemma_decimal_monotone(d: Seq<u8>, i: int)
    requires
        0 <= i <= d.len(),
    ensures
        decimal_value(d.subrange(0, i)) <= decimal_value(d),
    decreases d.len(),
{
    if i < d.len() {
        assert(d.drop_last().subrange(0, i) =~= d.subrange(0, i));
        lemma_decimal_monotone(d.drop_last(), i);
    } else {
        assert(d.subrange(0, i) =~= d);
    }
}

/// Where the first line of `b` ends.
fn find_line_end(b: &[u8]) -> (r: usize)
    ensures
        r == line_end(b@),
{
    let mut i: usize = 0;
    while i < b.len()
        invariant
            i <= b@.len(),
            forall|j: int| 0 <= j < i ==> b@[j] != 0x0au8,
        decreases b@.len() - i,
    {
        if b[i] == 0x0au8 {
            proof {
                lemma_first_break_unique(b@, i as int);
            }
            return i + 1;
        }
        i = i + 1;
    }
    proof {
        assert(!exists|k: int| first_break_at(b@, k));
    }
    i
}

/// The port on the line `b[..end]`.
fn parse_port(b: &[u8], end: usize) -> (r: Option<u16>)
    requires
        end <= b@.len(),
    ensures
        r == port_of(b@.subrange(0, end as int)),
{
    let ghost line = b@.subrange(0, end as int);
    let mut s: usize = 0;
    assert(line.subrange(0, end as int) =~= line);
    while s < end && (b[s] == 0x20u8 || (0x09u8 <= b[s] && b[s] <= 0x0du8))
        invariant
            s <= end <= b@.len(),
            line == b@.subrange(0, end as int),
            trim_start(line.subrange(s as int, end as int)) == trim_start(line),
        decreases end - s,
    {
        assert(line.subrange(s as int, end as int).drop_first() =~= line.subrange(s + 1, end as int));
        s = s + 1;
    }
    assert(trim_start(line) == line.subrange(s as int, end as int));
    let mut e: usize = end;
    while e > s && (b[e - 1] == 0x20u8 || (0x09u8 <= b[e - 1] && b[e - 1] <= 0x0du8))
        invariant
            s <= e <= end <= b@.len(),
            line == b@.subrange(0, end as int),
            trim_start(line) == line.subrange(s as int, end as int),
            trim_end(line.subrange(s as int, e as int)) == trim(line),
        decreases e - s,
    {
        assert(line.subrange(s as int, e as int).drop_last() =~= line.subrange(s as int, e - 1));
        e = e - 1;
    }
    assert(trim(line) =~= b@.subrange(s as int, e as int));
    let mut p: usize = s;
    if p < e && b[p] == 0x2bu8 {
        p = p + 1;
    }
    let ghost d = unsigned_digits(trim(line));
    assert(d =~= b@.subrange(p as int, e as int));
    if p == e {
        return None;
    }
    let mut acc: u32 = 0;
    let mut i: usize = p;
    while i < e
        invariant
            p <= i <= e <= b@.len(),
            d == b@.subrange(p as int, e as int),
            d == unsigned_digits(trim(b@.subrange(0, end as int))),
            forall|j: int| p <= j < i ==> is_digit(b@[j]),
            acc as nat == decimal_value(d.subrange(0, i - p)),
            acc <= 0xffff,
        decreases e - i,
    {
        let c = b[i];
        if c < 0x30u8 || c > 0x39u8 {
            assert(d[i - p] == c);
            assert(!is_digit(d[i - p]));
            return None;
        }
        let ghost next = d.subrange(0, i + 1 - p);
        assert(next.drop_last() =~= d.subrange(0, i - p));
        assert(next.last() == c);
        assert(decimal_value(next) == decimal_value(d.subrange(0, i - p)) * 10 + (c - 0x30) as nat);
        acc = acc * 10 + (c - 0x30u8) as u32;
        assert(acc as nat == decimal_value(next));
        if acc > 0xffff {
            proof {
                lemma_decimal_monotone(d, i + 1 - p);
            }
            return None;
        }
        i = i + 1;
    }
    assert(d.subrange(0, e - p) =~= d);
    assert forall|j: int| 0 <= j < d.len() implies is_digit(#[trigger] d[j]) by {
        assert(d[j] == b@[p + j]);
    }
    Some(acc as u16)
}

/// The rendezvous descriptor: the agent's port on 127.0.0.1 and the nonce
/// that authenticates a connection to it.
pub struct Assuan {
    port: u16,
    nonce: Vec<u8>,
}

impl View for Assuan {
    type V = (u16, Seq<u8>);

    closed spec fn view(&self) -> (u16, Seq<u8>) {
        (self.port, self.nonce@)
    }
}

impl Assuan {
    #[verifier::type_invariant]
    closed spec fn nonce_whole(&self) -> bool {
        self.nonce@.len() == NONCE_LEN
    }

    /// Reads a rendezvous file's contents: the port on its first line, the
    /// 16 bytes after that line as the nonce. Fails with `NonceParse` when
    /// fewer than 16 bytes follow the line, else with `PortParse` when the
    /// line, trimmed, is not an unsigned 16-bit decimal number. Bytes after
    /// the nonce are ignored.
    pub fn new(contents: &[u8]) -> (r: Result<Assuan, Error>)
        ensures
            r is Ok <==> rendezvous_of(contents@) is Ok,
            r matches Ok(a) ==> rendezvous_of(contents@) == Ok::<(u16, Seq<u8>), Error>(a@),
            r matches Err(e) ==> rendezvous_of(contents@) == Err::<(u16, Seq<u8>), Error>(e),
    {
        let end = find_line_end(contents);
        if contents.len() - end < NONCE_LEN {
            return Err(Error::NonceParse);
        }
        let nonce = crate::frame::copy_range(contents, end, end + NONCE_LEN);
        match parse_port(contents, end) {
            Some(port) => Ok(Assuan { port, nonce }),
            None => Err(Error::PortParse),
        }
    }

    /// The agent's port on 127.0.0.1.
    pub fn port(&self) -> (r: u16)
        ensures
            r == self@.0,
    {
        self.port
    }

    /// The handshake: the nonce, to be written as the first 16 bytes on a new
    /// connection.
    pub fn handshake(&self) -> (r: &[u8])
        ensures
            r@ == self@.1,
            r@.len() == NONCE_LEN,
    {
        proof {
            use_type_invariant(self);
        }
        self.nonce.as_slice()
    }
}

} // verus!
