//! The DHCP wire format: a fixed header, the magic cookie, and a sequence of
//! code-length-value options closed by an end marker.

use vstd::prelude::*;
use crate::ipv4::{be16_bytes, be16_value, be32_bytes, be32_value, mac_bytes, mac_value, make_big_endian_vec_from_u32, MAC_LIMIT};

verus! {

pub const OP: usize = 0;
pub const HTYPE: usize = 1;
pub const HLEN: usize = 2;
pub const XID: usize = 4;
pub const SECS: usize = 8;
pub const FLAGS: usize = 10;
pub const CIADDR: usize = 12;
pub const YIADDR: usize = 16;
pub const SIADDR: usize = 20;
pub const GIADDR: usize = 24;
pub const CHADDR: usize = 28;
pub const SNAME: usize = 44;
/// Offset of the magic cookie, which the option area follows.
pub const OPTIONS: usize = 236;
/// Offset of the first option byte.
pub const OPTIONS_START: usize = 240;
/// Smallest datagram that is sent: the size of a BOOTP message.
pub const MIN_PACKET_SIZE: usize = 300;

pub const BOOTREQUEST: u8 = 1;
pub const BOOTREPLY: u8 = 2;
pub const HTYPE_ETHER: u8 = 1;

pub const OPTION_PAD: u8 = 0;
pub const OPTION_END: u8 = 255;

/// The magic cookie that opens the option area.
pub open spec fn magic_cookie() -> Seq<u8> {
    seq![99u8, 130u8, 83u8, 99u8]
}

/// One option as it stands on the wire.
pub struct DhcpOption {
    pub code: u8,
    pub value: Vec<u8>,
}

impl View for DhcpOption {
    type V = (u8, Seq<u8>);

    open spec fn view(&self) -> (u8, Seq<u8>) {
        (self.code, self.value@)
    }
}

/// The views of a list of options.
pub open spec fn options_view(v: Seq<DhcpOption>) -> Seq<(u8, Seq<u8>)> {
    v.map_values(|o: DhcpOption| o@)
}

/// The options of an option area, in order. Scanning starts at its first byte;
/// a pad byte is skipped; the end marker, the end of the bytes, or an option
/// whose length runs past the end stop it.
pub open spec fn parse_options(s: Seq<u8>) -> Seq<(u8, Seq<u8>)>
    decreases s.len(),
{
    if s.len() == 0 {
        Seq::empty()
    } else if s[0] == OPTION_PAD {
        parse_options(s.subrange(1, s.len() as int))
    } else if s[0] == OPTION_END || s.len() < 2 || s.len() < 2 + s[1] {
        Seq::empty()
    } else {
        seq![(s[0], s.subrange(2, 2 + s[1]))] + parse_options(
            s.subrange(2 + s[1], s.len() as int),
        )
    }
}

/// The value of the first option with `code`, if any.
pub open spec fn first_option(opts: Seq<(u8, Seq<u8>)>, code: u8) -> Option<Seq<u8>>
    decreases opts.len(),
{
    if opts.len() == 0 {
        None
    } else if opts[0].0 == code {
        Some(opts[0].1)
    } else {
        first_option(opts.subrange(1, opts.len() as int), code)
    }
}

/// An option that can be written: neither pad nor end, and a value whose
/// length fits in one byte.
pub open spec fn writable_option(o: (u8, Seq<u8>)) -> bool {
    o.0 != OPTION_PAD && o.0 != OPTION_END && o.1.len() <= 255
}

/// The bytes of one option: code, length, value.
pub open spec fn option_bytes(o: (u8, Seq<u8>)) -> Seq<u8> {
    seq![o.0, o.1.len() as u8] + o.1
}

/// The bytes of a list of options, without the end marker.
pub open spec fn options_bytes(opts: Seq<(u8, Seq<u8>)>) -> Seq<u8>
    decreases opts.len(),
{
    if opts.len() == 0 {
        Seq::empty()
    } else {
        option_bytes(opts[0]) + options_bytes(opts.subrange(1, opts.len() as int))
    }
}

/// `n` zero bytes.
pub open spec fn zeros(n: nat) -> Seq<u8> {
    Seq::new(n, |i: int| 0u8)
}

pub proof fn lemma_options_bytes_push(opts: Seq<(u8, Seq<u8>)>, o: (u8, Seq<u8>))
    ensures
        options_bytes(opts.push(o)) == options_bytes(opts) + option_bytes(o),
    decreases opts.len(),
{
    if opts.len() == 0 {
        let t = opts.push(o);
        assert(t[0] == o);
        assert(t.subrange(1, 1) =~= Seq::<(u8, Seq<u8>)>::empty());
        assert(options_bytes(t.subrange(1, 1)) == Seq::<u8>::empty());
        assert(options_bytes(opts) == Seq::<u8>::empty());
        assert(options_bytes(t) =~= option_bytes(o));
    } else {
        let rest = opts.subrange(1, opts.len() as int);
        assert(opts.push(o).subrange(1, opts.len() + 1 as int) =~= rest.push(o));
        lemma_options_bytes_push(rest, o);
        assert(options_bytes(opts.push(o)) =~= options_bytes(opts) + option_bytes(o));
    }
}

/// Decoding what was encoded gives back the options, whatever follows the
/// end marker.
pub proof fn lemma_parse_options_bytes(opts: Seq<(u8, Seq<u8>)>, tail: Seq<u8>)
    requires
        forall|i: int| 0 <= i < opts.len() ==> writable_option(#[trigger] opts[i]),
        tail.len() > 0,
        tail[0] == OPTION_END,
    ensures
        parse_options(options_bytes(opts) + tail) == opts,
    decreases opts.len(),
{
    let s = options_bytes(opts) + tail;
    if opts.len() == 0 {
        assert(s =~= tail);
        assert(opts =~= Seq::<(u8, Seq<u8>)>::empty());
    } else {
        let o = opts[0];
        assert(writable_option(opts[0]));
        let rest = opts.subrange(1, opts.len() as int);
        assert forall|i: int| 0 <= i < rest.len() implies writable_option(#[trigger] rest[i]) by {
            assert(rest[i] == opts[i + 1]);
        }
        lemma_parse_options_bytes(rest, tail);
        let l = o.1.len() as int;
        assert(s =~= seq![o.0, o.1.len() as u8] + o.1 + (options_bytes(rest) + tail));
        assert(s[0] == o.0);
        assert(s[1] == l);
        assert(s.subrange(2, 2 + l) =~= o.1);
        assert(s.subrange(2 + l, s.len() as int) =~= options_bytes(rest) + tail);
        assert(parse_options(s) =~= seq![o] + rest);
        assert(seq![o] + rest =~= opts);
    }
}

fn copy_range(buf: &Vec<u8>, from: usize, to: usize) -> (r: Vec<u8>)
    requires
        from <= to <= buf@.len(),
    ensures
        r@ == buf@.subrange(from as int, to as int),
{
    let mut r: Vec<u8> = Vec::new();
    let mut i: usize = from;
    while i < to
        invariant
            from <= i <= to <= buf@.len(),
            r@ == buf@.subrange(from as int, i as int),
        decreases to - i,
    {
        r.push(buf[i]);
        i = i + 1;
        assert(r@ =~= buf@.subrange(from as int, i as int));
    }
    r
}

fn copy_slice(buf: &[u8]) -> (r: Vec<u8>)
    ensures
        r@ == buf@,
{
    let mut r: Vec<u8> = Vec::new();
    let mut i: usize = 0;
    while i < buf.len()
        invariant
            0 <= i <= buf@.len(),
            r@ == buf@.subrange(0, i as int),
        decreases buf@.len() - i,
    {
        r.push(buf[i]);
        i = i + 1;
        assert(r@ =~= buf@.subrange(0, i as int));
    }
    assert(r@ =~= buf@);
    r
}

/// Decodes the option area that starts at `start`, by one bounded scan.
fn decode_options(buf: &Vec<u8>, start: usize) -> (r: Vec<DhcpOption>)
    requires
        start <= buf@.len(),
    ensures
        options_view(r@) == parse_options(buf@.subrange(start as int, buf@.len() as int)),
{
    let n = buf.len();
    let ghost total = parse_options(buf@.subrange(start as int, n as int));
    let mut out: Vec<DhcpOption> = Vec::new();
    let mut i: usize = start;
    while i < n
        invariant
            start <= i <= n == buf@.len(),
            total == parse_options(buf@.subrange(start as int, n as int)),
            options_view(out@) + parse_options(buf@.subrange(i as int, n as int)) == total,
        decreases n - i,
    {
        let ghost s = buf@.subrange(i as int, n as int);
        let code = buf[i];
        if code == OPTION_PAD {
            assert(s.subrange(1, s.len() as int) =~= buf@.subrange(i + 1, n as int));
            i = i + 1;
        } else if code == OPTION_END || n - i < 2 || n - i - 2 < buf[i + 1] as usize {
            assert(parse_options(s) == Seq::<(u8, Seq<u8>)>::empty());
            assert(options_view(out@) =~= options_view(out@) + parse_options(s));
            return out;
        } else {
            let len = buf[i + 1] as usize;
            let value = copy_range(buf, i + 2, i + 2 + len);
            let ghost before = options_view(out@);
            out.push(DhcpOption { code, value });
            assert(options_view(out@) =~= before.push((code, value@)));
            assert(s.subrange(2, 2 + len) =~= value@);
            assert(s.subrange(2 + len, s.len() as int) =~= buf@.subrange(
                (i + 2 + len) as int,
                n as int,
            ));
            assert(parse_options(s) =~= seq![(code, value@)] + parse_options(
                buf@.subrange((i + 2 + len) as int, n as int),
            ));
            assert(before.push((code, value@)) + parse_options(
                buf@.subrange((i + 2 + len) as int, n as int),
            ) =~= before + parse_options(s));
            i = i + 2 + len;
        }
    }
    assert(buf@.subrange(i as int, n as int) =~= Seq::<u8>::empty());
    assert(options_view(out@) =~= total);
    out
}

/// `post` is `pre` with option `code` of length `len` written at `c`: the
/// value is `contents`, or the bytes already there when there are none.
pub open spec fn option_written(
    pre: Seq<u8>,
    post: Seq<u8>,
    c: int,
    code: u8,
    len: int,
    contents: Option<Seq<u8>>,
) -> bool {
    &&& post.len() == pre.len()
    &&& post.subrange(0, c) == pre.subrange(0, c)
    &&& post[c] == code
    &&& post[c + 1] == len as u8
    &&& post.subrange(c + 2, c + 2 + len) == (match contents {
        Some(v) => v,
        None => pre.subrange(c + 2, c + 2 + len),
    })
    &&& post.subrange(c + 2 + len, pre.len() as int) == pre.subrange(c + 2 + len, pre.len() as int)
}

/// A datagram together with its option area decoded once.
pub struct DhcpPacket {
    buffer: Vec<u8>,
    options: Vec<DhcpOption>,
}

impl DhcpPacket {
    /// The datagram's bytes.
    pub closed spec fn bytes(&self) -> Seq<u8> {
        self.buffer@
    }

    /// The decoded options, in order.
    pub closed spec fn opts(&self) -> Seq<(u8, Seq<u8>)> {
        options_view(self.options@)
    }

    /// Long enough for header and cookie, and the options are those of the
    /// bytes.
    pub open spec fn wf(&self) -> bool {
        &&& self.bytes().len() >= OPTIONS_START
        &&& self.opts() == parse_options(
            self.bytes().subrange(OPTIONS_START as int, self.bytes().len() as int),
        )
    }

    /// Decodes a datagram; `None` when it is shorter than the header and the
    /// magic cookie.
    pub fn new(buffer: Vec<u8>) -> (r: Option<DhcpPacket>)
        ensures
            buffer@.len() < OPTIONS_START ==> r.is_none(),
            buffer@.len() >= OPTIONS_START ==> (r matches Some(p) && p.wf() && p.bytes()
                == buffer@),
    {
        if buffer.len() < OPTIONS_START {
            return None;
        }
        Some(Self::from_bytes(buffer))
    }

    pub(crate) fn from_bytes(buffer: Vec<u8>) -> (r: DhcpPacket)
        requires
            buffer@.len() >= OPTIONS_START,
        ensures
            r.wf(),
            r.bytes() == buffer@,
    {
        let options = decode_options(&buffer, OPTIONS_START);
        DhcpPacket { buffer, options }
    }

    pub fn get_buffer(&self) -> (r: &[u8])
        ensures
            r@ == self.bytes(),
    {
        self.buffer.as_slice()
    }

    pub fn get_op(&self) -> (r: u8)
        requires
            self.wf(),
        ensures
            r == self.bytes()[OP as int],
    {
        self.buffer[OP]
    }

    /// The bytes from the magic cookie on.
    pub fn get_options(&self) -> (r: Vec<u8>)
        requires
            self.wf(),
        ensures
            r@ == self.bytes().subrange(OPTIONS as int, self.bytes().len() as int),
    {
        copy_range(&self.buffer, OPTIONS, self.buffer.len())
    }

    fn read_u32(&self, at: usize) -> (r: u32)
        requires
            at + 4 <= self.bytes().len(),
        ensures
            r == be32_value(self.bytes().subrange(at as int, at + 4)),
    {
        let n = self.buffer.len();
        let ghost b = self.bytes().subrange(at as int, at + 4);
        assert(b[0] == self.buffer@[at as int] && b[1] == self.buffer@[at + 1] && b[2]
            == self.buffer@[at + 2] && b[3] == self.buffer@[at + 3]);
        (self.buffer[at] as u32) * 0x1000000 + (self.buffer[at + 1] as u32) * 0x10000 + (
        self.buffer[at + 2] as u32) * 0x100 + (self.buffer[at + 3] as u32)
    }

    /// The transaction id.
    pub fn get_xid(&self) -> (r: u32)
        requires
            self.wf(),
        ensures
            r == be32_value(self.bytes().subrange(XID as int, XID + 4)),
    {
        self.read_u32(XID)
    }

    pub fn get_flags(&self) -> (r: u16)
        requires
            self.wf(),
        ensures
            r == be16_value(self.bytes().subrange(FLAGS as int, FLAGS + 2)),
    {
        let ghost b = self.bytes().subrange(FLAGS as int, FLAGS + 2);
        assert(b[0] == self.buffer@[FLAGS as int] && b[1] == self.buffer@[FLAGS + 1]);
        (self.buffer[FLAGS] as u16) * 0x100 + (self.buffer[FLAGS + 1] as u16)
    }

    pub fn get_ciaddr(&self) -> (r: u32)
        requires
            self.wf(),
        ensures
            r == be32_value(self.bytes().subrange(CIADDR as int, CIADDR + 4)),
    {
        self.read_u32(CIADDR)
    }

    pub fn get_yiaddr(&self) -> (r: u32)
        requires
            self.wf(),
        ensures
            r == be32_value(self.bytes().subrange(YIADDR as int, YIADDR + 4)),
    {
        self.read_u32(YIADDR)
    }

    pub fn get_giaddr(&self) -> (r: u32)
        requires
            self.wf(),
        ensures
            r == be32_value(self.bytes().subrange(GIADDR as int, GIADDR + 4)),
    {
        self.read_u32(GIADDR)
    }

    /// The client hardware address: the first six bytes of its field.
    pub fn get_chaddr(&self) -> (r: u64)
        requires
            self.wf(),
        ensures
            r == mac_value(self.bytes().subrange(CHADDR as int, CHADDR + 6)),
            r < MAC_LIMIT,
    {
        let ghost b = self.bytes().subrange(CHADDR as int, CHADDR + 6);
        assert(b[0] == self.buffer@[CHADDR as int] && b[1] == self.buffer@[CHADDR + 1] && b[2]
            == self.buffer@[CHADDR + 2] && b[3] == self.buffer@[CHADDR + 3] && b[4]
            == self.buffer@[CHADDR + 4] && b[5] == self.buffer@[CHADDR + 5]);
        (self.buffer[CHADDR] as u64) * 0x10000000000 + (self.buffer[CHADDR + 1] as u64)
            * 0x100000000 + (self.buffer[CHADDR + 2] as u64) * 0x1000000 + (self.buffer[CHADDR
            + 3] as u64) * 0x10000 + (self.buffer[CHADDR + 4] as u64) * 0x100 + (
        self.buffer[CHADDR + 5] as u64)
    }

    /// The value of the first option with `option_code`, looked up in the
    /// decoded options.
    pub fn get_option(&self, option_code: u8) -> (r: Option<Vec<u8>>)
        ensures
            r matches Some(v) ==> first_option(self.opts(), option_code) == Some(v@),
            r is None ==> first_option(self.opts(), option_code) is None,
    {
        let ghost opts = self.opts();
        assert(opts.subrange(0, opts.len() as int) =~= opts);
        let mut i: usize = 0;
        while i < self.options.len()
            invariant
                0 <= i <= self.options@.len(),
                opts == options_view(self.options@),
                opts.len() == self.options@.len(),
                first_option(opts, option_code) == first_option(
                    opts.subrange(i as int, opts.len() as int),
                    option_code,
                ),
            decreases self.options@.len() - i,
        {
            let ghost s = opts.subrange(i as int, opts.len() as int);
            assert(s[0] == self.options@[i as int]@);
            if self.options[i].code == option_code {
                return Some(copy_slice(self.options[i].value.as_slice()));
            }
            assert(s.subrange(1, s.len() as int) =~= opts.subrange(i + 1, opts.len() as int));
            i = i + 1;
        }
        None
    }

    /// Writes `bytes` at offset `at`; the decoded options are left alone.
    fn write_bytes(&mut self, at: usize, bytes: &[u8])
        requires
            at + bytes@.len() <= old(self).bytes().len(),
        ensures
            final(self).bytes() == old(self).bytes().subrange(0, at as int) + bytes@ + old(self).bytes().subrange(at + bytes@.len(), old(self).bytes().len() as int),
            final(self).opts() == old(self).opts(),
    {
        let ghost pre = self.bytes();
        let n = self.buffer.len();
        let mut k: usize = 0;
        while k < bytes.len()
            invariant
                at + bytes@.len() <= pre.len(),
                n == pre.len(),
                0 <= k <= bytes@.len(),
                self.options@ == old(self).options@,
                self.bytes().len() == pre.len(),
                self.bytes() =~= pre.subrange(0, at as int) + bytes@.subrange(0, k as int)
                    + pre.subrange(at + k, pre.len() as int),
            decreases bytes@.len() - k,
        {
            self.buffer.set(at + k, bytes[k]);
            k = k + 1;
            assert(self.bytes() =~= pre.subrange(0, at as int) + bytes@.subrange(0, k as int)
                + pre.subrange(at + k, pre.len() as int));
        }
        assert(bytes@.subrange(0, k as int) =~= bytes@);
    }

    /// Writing inside the fixed header keeps the options those of the bytes.
    fn write_header(&mut self, at: usize, bytes: &[u8])
        requires
            old(self).wf(),
            at + bytes@.len() <= OPTIONS,
        ensures
            final(self).wf(),
            final(self).bytes() == old(self).bytes().subrange(0, at as int) + bytes@ + old(self).bytes().subrange(at + bytes@.len(), old(self).bytes().len() as int),
    {
        let ghost pre = self.bytes();
        self.write_bytes(at, bytes);
        assert(self.bytes().subrange(OPTIONS_START as int, pre.len() as int) =~= pre.subrange(
            OPTIONS_START as int,
            pre.len() as int,
        ));
    }

    /// Sets the relay agent address.
    pub fn set_giaddr(&mut self, giaddr: u32)
        requires
            old(self).wf(),
        ensures
            final(self).wf(),
            final(self).bytes() == old(self).bytes().subrange(0, GIADDR as int) + be32_bytes(
                giaddr,
            ) + old(self).bytes().subrange(GIADDR + 4, old(self).bytes().len() as int),
    {
        let b = make_big_endian_vec_from_u32(giaddr);
        self.write_header(GIADDR, b.as_slice());
    }

    /// Sets the client hardware address: its six bytes, the rest of the
    /// field zero.
    pub fn set_chaddr(&mut self, chaddr: u64)
        requires
            old(self).wf(),
        ensures
            final(self).wf(),
            final(self).bytes() == old(self).bytes().subrange(0, CHADDR as int) + mac_bytes(
                chaddr,
            ) + zeros(10) + old(self).bytes().subrange(SNAME as int, old(self).bytes().len() as int),
    {
        let mut b: Vec<u8> = Vec::new();
        push_mac(&mut b, chaddr);
        push_zeros(&mut b, 10);
        self.write_header(CHADDR, b.as_slice());
    }

    /// Writes one option at `cursor` and moves the cursor past it: code,
    /// length and value, or the end marker alone (the cursor then stays).
    /// With no contents the value bytes are left as they are. The decoded
    /// options are brought up to date.
    pub fn set_option(&mut self, cursor: &mut usize, code: u8, len: usize, contents: Option<&[u8]>)
        requires
            old(self).bytes().len() >= OPTIONS_START,
            len <= 255,
            contents matches Some(c) ==> c@.len() == len,
            code == OPTION_END ==> *old(cursor) < old(self).bytes().len(),
            code != OPTION_END ==> *old(cursor) + 2 + len <= old(self).bytes().len(),
        ensures
            final(self).wf(),
            code == OPTION_END ==> final(self).bytes() == old(self).bytes().update(
                *old(cursor) as int,
                OPTION_END,
            ) && *final(cursor) == *old(cursor),
            code != OPTION_END ==> *final(cursor) == *old(cursor) + 2 + len && option_written(
                old(self).bytes(),
                final(self).bytes(),
                *old(cursor) as int,
                code,
                len as int,
                match contents {
                    Some(c) => Some(c@),
                    None => None,
                },
            ),
    {
        let c = *cursor;
        let n = self.buffer.len();
        let ghost pre = self.bytes();
        self.buffer.set(c, code);
        if code != OPTION_END {
            self.buffer.set(c + 1, len as u8);
            let ghost mid = self.bytes();
            match contents {
                Some(v) => {
                    self.write_bytes(c + 2, v);
                    assert(self.bytes().subrange(c + 2, c + 2 + len) =~= v@);
                },
                None => {
                    assert(self.bytes().subrange(c + 2, c + 2 + len) =~= pre.subrange(
                        c + 2,
                        c + 2 + len,
                    ));
                },
            }
            assert(self.bytes().subrange(0, c as int) =~= pre.subrange(0, c as int));
            assert(self.bytes()[c as int] == mid[c as int]);
            assert(self.bytes()[c + 1] == mid[c + 1]);
            assert(self.bytes().subrange(c + 2 + len, n as int) =~= pre.subrange(
                c + 2 + len,
                n as int,
            ));
            *cursor = c + 2 + len;
        }
        self.options = decode_options(&self.buffer, OPTIONS_START);
    }
}

/// The fields of the fixed header that this server reads or writes; hops,
/// server name and boot file are written as zeros.
#[derive(Clone, Copy, Debug, PartialEq, Eq, Structural)]
pub struct DhcpHeader {
    pub op: u8,
    pub htype: u8,
    pub hlen: u8,
    pub xid: u32,
    pub secs: u16,
    pub flags: u16,
    pub ciaddr: u32,
    pub yiaddr: u32,
    pub siaddr: u32,
    pub giaddr: u32,
    /// Hardware address, six bytes big-endian; the field is zero-padded.
    pub chaddr: u64,
}

/// The 236 bytes of the fixed header.
pub open spec fn header_bytes(h: DhcpHeader) -> Seq<u8> {
    seq![h.op, h.htype, h.hlen, 0u8] + be32_bytes(h.xid) + be16_bytes(h.secs) + be16_bytes(
        h.flags,
    ) + be32_bytes(h.ciaddr) + be32_bytes(h.yiaddr) + be32_bytes(h.siaddr) + be32_bytes(h.giaddr)
        + mac_bytes(h.chaddr) + zeros(202)
}

/// `s` filled up with zeros to the smallest datagram size.
pub open spec fn padded(s: Seq<u8>) -> Seq<u8> {
    if s.len() < MIN_PACKET_SIZE {
        s + zeros((MIN_PACKET_SIZE - s.len()) as nat)
    } else {
        s
    }
}

/// The datagram that carries header `h` and options `opts`.
pub open spec fn encoded(h: DhcpHeader, opts: Seq<(u8, Seq<u8>)>) -> Seq<u8> {
    padded(header_bytes(h) + magic_cookie() + options_bytes(opts) + seq![OPTION_END])
}

/// Every option of `v` can be written.
pub open spec fn all_writable(v: Seq<DhcpOption>) -> bool {
    forall|i: int| 0 <= i < v.len() ==> writable_option(#[trigger] v[i]@)
}

/// Serializes a header and options, in the order given, closed by the end
/// marker and padded to the smallest datagram size.
pub fn encode(header: &DhcpHeader, options: &Vec<DhcpOption>) -> (r: Vec<u8>)
    requires
        all_writable(options@),
    ensures
        r@ == encoded(*header, options_view(options@)),
{
    let mut v: Vec<u8> = Vec::new();
    v.push(header.op);
    v.push(header.htype);
    v.push(header.hlen);
    v.push(0u8);
    push_u32(&mut v, header.xid);
    push_u16(&mut v, header.secs);
    push_u16(&mut v, header.flags);
    push_u32(&mut v, header.ciaddr);
    push_u32(&mut v, header.yiaddr);
    push_u32(&mut v, header.siaddr);
    push_u32(&mut v, header.giaddr);
    push_mac(&mut v, header.chaddr);
    push_zeros(&mut v, 202);
    assert(v@ =~= header_bytes(*header));
    v.push(99u8);
    v.push(130u8);
    v.push(83u8);
    v.push(99u8);
    let ghost head = header_bytes(*header) + magic_cookie();
    assert(v@ =~= head);
    let mut i: usize = 0;
    while i < options.len()
        invariant
            0 <= i <= options@.len(),
            all_writable(options@),
            v@ == head + options_bytes(options_view(options@.subrange(0, i as int))),
        decreases options@.len() - i,
    {
        let o = &options[i];
        assert(writable_option(options@[i as int]@));
        let ghost before = v@;
        v.push(o.code);
        v.push(o.value.len() as u8);
        let mut k: usize = 0;
        while k < o.value.len()
            invariant
                0 <= k <= o.value@.len(),
                v@ == before + seq![o.code, o.value@.len() as u8] + o.value@.subrange(0, k as int),
            decreases o.value@.len() - k,
        {
            v.push(o.value[k]);
            k = k + 1;
            assert(v@ =~= before + seq![o.code, o.value@.len() as u8] + o.value@.subrange(
                0,
                k as int,
            ));
        }
        proof {
            let prev = options_view(options@.subrange(0, i as int));
            lemma_options_bytes_push(prev, o@);
            assert(options_view(options@.subrange(0, i + 1)) =~= prev.push(o@));
            assert(o.value@.subrange(0, k as int) =~= o.value@);
            assert(v@ =~= head + options_bytes(prev) + option_bytes(o@));
        }
        i = i + 1;
    }
    assert(options@.subrange(0, i as int) =~= options@);
    v.push(OPTION_END);
    let ghost body = v@;
    assert(body =~= header_bytes(*header) + magic_cookie() + options_bytes(options_view(options@))
        + seq![OPTION_END]);
    if v.len() < MIN_PACKET_SIZE {
        let pad = MIN_PACKET_SIZE - v.len();
        push_zeros(&mut v, pad);
    }
    v
}

/// Decoding an encoded datagram gives back exactly the options encoded.
pub proof fn lemma_decode_encoded(h: DhcpHeader, opts: Seq<(u8, Seq<u8>)>)
    requires
        forall|i: int| 0 <= i < opts.len() ==> writable_option(#[trigger] opts[i]),
    ensures
        encoded(h, opts).len() >= MIN_PACKET_SIZE,
        parse_options(
            encoded(h, opts).subrange(OPTIONS_START as int, encoded(h, opts).len() as int),
        ) == opts,
{
    let e = encoded(h, opts);
    let body = header_bytes(h) + magic_cookie() + options_bytes(opts) + seq![OPTION_END];
    assert(header_bytes(h).len() == OPTIONS);
    let tail = e.subrange(OPTIONS_START as int + options_bytes(opts).len(), e.len() as int);
    assert(tail[0] == OPTION_END);
    assert(e.subrange(OPTIONS_START as int, e.len() as int) =~= options_bytes(opts) + tail);
    lemma_parse_options_bytes(opts, tail);
}

pub fn push_u32(v: &mut Vec<u8>, x: u32)
    ensures
        final(v)@ == old(v)@ + be32_bytes(x),
{
    v.push((x / 0x1000000) as u8);
    v.push(((x / 0x10000) % 0x100) as u8);
    v.push(((x / 0x100) % 0x100) as u8);
    v.push((x % 0x100) as u8);
    assert(v@ =~= old(v)@ + be32_bytes(x));
}

pub fn push_u16(v: &mut Vec<u8>, x: u16)
    ensures
        final(v)@ == old(v)@ + be16_bytes(x),
{
    v.push((x / 0x100) as u8);
    v.push((x % 0x100) as u8);
    assert(v@ =~= old(v)@ + be16_bytes(x));
}

pub fn push_mac(v: &mut Vec<u8>, m: u64)
    ensures
        final(v)@ == old(v)@ + mac_bytes(m),
{
    v.push(((m / 0x10000000000) % 0x100) as u8);
    v.push(((m / 0x100000000) % 0x100) as u8);
    v.push(((m / 0x1000000) % 0x100) as u8);
    v.push(((m / 0x10000) % 0x100) as u8);
    v.push(((m / 0x100) % 0x100) as u8);
    v.push((m % 0x100) as u8);
    assert(v@ =~= old(v)@ + mac_bytes(m));
}

pub fn push_zeros(v: &mut Vec<u8>, n: usize)
    ensures
        final(v)@ == old(v)@ + zeros(n as nat),
{
    let mut k: usize = 0;
    while k < n
        invariant
            0 <= k <= n,
            v@ == old(v)@ + zeros(k as nat),
        decreases n - k,
    {
        v.push(0u8);
        k = k + 1;
        assert(v@ =~= old(v)@ + zeros(k as nat));
    }
}

} // verus!
