use vstd::prelude::*;
use vstd::utf8::*;

use crate::buffer::buf_byte;
use crate::buffer::buf_extend;
use crate::buffer::buf_len;
use crate::buffer::buf_put_u16_be;
use crate::buffer::buf_put_u8;
use crate::buffer::buf_split_to;
use crate::buffer::bytes_view;
use crate::define::Ip;
use bytes::BytesMut;

verus! {

/// The address wire sub-format shared by the client-facing connect request
/// and the inter-agent relay header:
///
/// ```text
/// [atyp]                 1 byte; 1 = IPv4, 3 = domain
/// atyp == 1: [a][b][c][d]          the four address octets
/// atyp == 3: [len][len bytes]      a UTF-8 domain name, len <= 255
/// [port_hi][port_lo]     big-endian port
/// ```
pub open spec fn be16(hi: u8, lo: u8) -> u16 {
    (hi * 256 + lo) as u16
}

/// What a byte sequence, starting at the `atyp` byte, parses to.
pub enum AddrSpec {
    /// Too few bytes buffered to determine or complete the current field;
    /// nothing may be consumed.
    NeedMore,
    /// The `atyp` byte is neither 1 nor 3; nothing is consumed and the
    /// connection is torn down.
    Unsupported,
    /// The declared domain bytes are present but are not valid UTF-8; the
    /// bytes through the end of the domain have been consumed.
    BadEncoding,
    /// A complete address: `consumed` bytes of the input were used.
    Done { atyp: u8, ip: Ip, url: Seq<u8>, port: u16, consumed: int },
}

pub open spec fn no_ip() -> Ip {
    Ip { first: 0, second: 0, third: 0, forth: 0 }
}

pub open spec fn parse_addr_spec(s: Seq<u8>) -> AddrSpec {
    if s.len() < 1 {
        AddrSpec::NeedMore
    } else if s[0] == 1 {
        if s.len() < 7 {
            AddrSpec::NeedMore
        } else {
            AddrSpec::Done {
                atyp: 1,
                ip: Ip { first: s[1], second: s[2], third: s[3], forth: s[4] },
                url: Seq::empty(),
                port: be16(s[5], s[6]),
                consumed: 7,
            }
        }
    } else if s[0] == 3 {
        if s.len() < 2 {
            AddrSpec::NeedMore
        } else {
            let dl = s[1] as int;
            if s.len() < 2 + dl + 2 {
                AddrSpec::NeedMore
            } else {
                let url = s.subrange(2, 2 + dl);
                if valid_utf8(url) {
                    AddrSpec::Done {
                        atyp: 3,
                        ip: no_ip(),
                        url: url,
                        port: be16(s[2 + dl], s[3 + dl]),
                        consumed: 4 + dl,
                    }
                } else {
                    AddrSpec::BadEncoding
                }
            }
        }
    } else {
        AddrSpec::Unsupported
    }
}

/// The encoding of an address; the exact mirror of `parse_addr_spec`.
pub open spec fn encode_addr_spec(atyp: u8, ip: Ip, url: Seq<u8>, port: u16) -> Seq<u8> {
    let tail = seq![(port / 256) as u8, (port % 256) as u8];
    if atyp == 1 {
        seq![atyp, ip.first, ip.second, ip.third, ip.forth] + tail
    } else {
        seq![atyp, url.len() as u8] + url + tail
    }
}

/// A parsed address, as executable data.
pub struct AddrInfo {
    pub atyp: u8,
    pub ip: Ip,
    pub url: Vec<u8>,
    pub port: u16,
}

pub enum AddrOut {
    NeedMore,
    Unsupported,
    BadEncoding,
    Done(AddrInfo),
}

/// Checks that the bytes are a valid UTF-8 encoding, as `String::from_utf8`
/// would accept them.
pub fn check_utf8(v: &[u8]) -> (b: bool)
    ensures
        b == valid_utf8(v@),
{
    let n = v.len();
    let mut i: usize = 0;
    proof {
        assert(v@.skip(0) =~= v@);
    }
    while i < n
        invariant
            i <= n,
            n == v@.len(),
            valid_utf8(v@) <==> valid_utf8(v@.skip(i as int)),
        decreases n - i,
    {
        let ghost s = v@.skip(i as int);
        let b0 = v[i];
        assert(s[0] == v@[i as int]);
        if b0 <= 0x7f {
            proof {
                assert(valid_first_scalar(s));
                assert(decode_first_codepoint(s) == leading_bits_width_1(b0));
                assert((b0 & 0x7f) < 0xd800usize as u32) by (bit_vector);
                assert(length_of_first_scalar(s) == 1);
                assert(pop_first_scalar(s) =~= v@.skip(i + 1));
            }
            i = i + 1;
        } else if 0xc0 <= b0 && b0 <= 0xdf {
            if n - i < 2 {
                proof {
                    assert(!valid_leading_and_continuation_bytes_first_codepoint(s));
                }
                return false;
            }
            let b1 = v[i + 1];
            assert(s[1] == v@[i + 1]);
            if !(0x80 <= b1 && b1 <= 0xbf) {
                proof {
                    assert(!valid_leading_and_continuation_bytes_first_codepoint(s));
                }
                return false;
            }
            let cp: u32 = (((b0 & 0x1f) as u32) << 6) | ((b1 & 0x3f) as u32);
            proof {
                assert(valid_leading_and_continuation_bytes_first_codepoint(s));
                assert(length_of_first_codepoint(s) == 2);
                assert(decode_first_codepoint(s) == codepoint_width_2(b0, b1));
                assert(cp == codepoint_width_2(b0, b1));
                assert((((b0 & 0x1f) as u32) << 6) | ((b1 & 0x3f) as u32) <= 0x7ff) by (bit_vector);
            }
            if cp < 0x80 {
                proof {
                    assert(!not_overlong_encoding(decode_first_codepoint(s), 2));
                    assert(!valid_first_scalar(s));
                }
                return false;
            }
            proof {
                assert(valid_first_scalar(s));
                assert(pop_first_scalar(s) =~= v@.skip(i + 2));
            }
            i = i + 2;
        } else if 0xe0 <= b0 && b0 <= 0xef {
            if n - i < 3 {
                proof {
                    assert(!valid_leading_and_continuation_bytes_first_codepoint(s));
                }
                return false;
            }
            let b1 = v[i + 1];
            let b2 = v[i + 2];
            assert(s[1] == v@[i + 1]);
            assert(s[2] == v@[i + 2]);
            if !(0x80 <= b1 && b1 <= 0xbf) || !(0x80 <= b2 && b2 <= 0xbf) {
                proof {
                    assert(!valid_leading_and_continuation_bytes_first_codepoint(s));
                }
                return false;
            }
            let cp: u32 = (((b0 & 0x0f) as u32) << 12) | (((b1 & 0x3f) as u32) << 6) | ((b2
                & 0x3f) as u32);
            proof {
                assert(valid_leading_and_continuation_bytes_first_codepoint(s));
                assert(length_of_first_codepoint(s) == 3);
                assert(decode_first_codepoint(s) == codepoint_width_3(b0, b1, b2));
                assert(cp == codepoint_width_3(b0, b1, b2));
            }
            if cp < 0x800 || (0xd800 <= cp && cp <= 0xdfff) {
                proof {
                    assert(!valid_first_scalar(s));
                }
                return false;
            }
            proof {
                assert(valid_first_scalar(s));
                assert(pop_first_scalar(s) =~= v@.skip(i + 3));
            }
            i = i + 3;
        } else if 0xf0 <= b0 && b0 <= 0xf7 {
            if n - i < 4 {
                proof {
                    assert(!valid_leading_and_continuation_bytes_first_codepoint(s));
                }
                return false;
            }
            let b1 = v[i + 1];
            let b2 = v[i + 2];
            let b3 = v[i + 3];
            assert(s[1] == v@[i + 1]);
            assert(s[2] == v@[i + 2]);
            assert(s[3] == v@[i + 3]);
            if !(0x80 <= b1 && b1 <= 0xbf) || !(0x80 <= b2 && b2 <= 0xbf) || !(0x80 <= b3 && b3
                <= 0xbf) {
                proof {
                    assert(!valid_leading_and_continuation_bytes_first_codepoint(s));
                }
                return false;
            }
            let cp: u32 = (((b0 & 0x07) as u32) << 18) | (((b1 & 0x3f) as u32) << 12) | (((b2
                & 0x3f) as u32) << 6) | ((b3 & 0x3f) as u32);
            proof {
                assert(valid_leading_and_continuation_bytes_first_codepoint(s));
                assert(length_of_first_codepoint(s) == 4);
                assert(decode_first_codepoint(s) == codepoint_width_4(b0, b1, b2, b3));
                assert(cp == codepoint_width_4(b0, b1, b2, b3));
            }
            if cp < 0x10000 || cp > 0x10ffff {
                proof {
                    assert(!valid_first_scalar(s));
                }
                return false;
            }
            proof {
                assert(not_surrogate(cp));
                assert(valid_first_scalar(s));
                assert(pop_first_scalar(s) =~= v@.skip(i + 4));
            }
            i = i + 4;
        } else {
            proof {
                assert(!valid_leading_and_continuation_bytes_first_codepoint(s));
            }
            return false;
        }
    }
    proof {
        assert(v@.skip(n as int) =~= Seq::<u8>::empty());
    }
    true
}

/// Attempts to read one address starting `offset` bytes into the buffer.
///
/// Mirrors `parse_addr_spec` on the buffered bytes: when the address is
/// incomplete or its `atyp` is unsupported the buffer is left untouched;
/// when the address (or a domain whose bytes are not UTF-8) is complete,
/// the prefix plus the consumed bytes are drained from the buffer.
pub fn parse_addr(buf: &mut BytesMut, offset: usize) -> (r: AddrOut)
    requires
        offset <= bytes_view(*old(buf)).len(),
    ensures
        ({
            let v = bytes_view(*old(buf));
            let s = v.skip(offset as int);
            match parse_addr_spec(s) {
                AddrSpec::NeedMore => r is NeedMore && bytes_view(*final(buf)) == v,
                AddrSpec::Unsupported => r is Unsupported && bytes_view(*final(buf)) == v,
                AddrSpec::BadEncoding => r is BadEncoding && bytes_view(*final(buf)) == v.skip(
                    offset + 2 + s[1],
                ),
                AddrSpec::Done { atyp, ip, url, port, consumed } => {
                    &&& r matches AddrOut::Done(info)
                    &&& info.atyp == atyp
                    &&& info.ip == ip
                    &&& info.url@ == url
                    &&& info.port == port
                    &&& bytes_view(*final(buf)) == v.skip(offset + consumed)
                },
            }
        }),
{
    let ghost v = bytes_view(*buf);
    let ghost s = v.skip(offset as int);
    let n = buf_len(buf);
    let avail = n - offset;
    if avail < 1 {
        return AddrOut::NeedMore;
    }
    let atyp = buf_byte(buf, offset);
    assert(atyp == s[0]);
    if atyp == 1 {
        if avail < 7 {
            return AddrOut::NeedMore;
        }
        let fs = buf_byte(buf, offset + 1);
        let sc = buf_byte(buf, offset + 2);
        let th = buf_byte(buf, offset + 3);
        let fo = buf_byte(buf, offset + 4);
        let hi = buf_byte(buf, offset + 5);
        let lo = buf_byte(buf, offset + 6);
        let _ = buf_split_to(buf, offset + 7);
        let ip = Ip::new(fs, sc, th, fo);
        let port: u16 = (hi as u16) * 256 + (lo as u16);
        assert(fs == s[1] && sc == s[2] && th == s[3] && fo == s[4]);
        assert(hi == s[5] && lo == s[6]);
        AddrOut::Done(AddrInfo { atyp, ip, url: Vec::new(), port })
    } else if atyp == 3 {
        if avail < 2 {
            return AddrOut::NeedMore;
        }
        let dl = buf_byte(buf, offset + 1) as usize;
        assert(dl == s[1]);
        if avail < 2 + dl + 2 {
            return AddrOut::NeedMore;
        }
        let mut url: Vec<u8> = Vec::new();
        let mut j: usize = 0;
        while j < dl
            invariant
                j <= dl,
                offset + 4 + dl <= usize::MAX,
                offset + 2 + dl + 2 <= bytes_view(*buf).len(),
                bytes_view(*buf) == v,
                s == v.skip(offset as int),
                dl == s[1],
                2 <= s.len(),
                url@ =~= s.subrange(2, 2 + j as int),
            decreases dl - j,
        {
            let b = buf_byte(buf, offset + 2 + j);
            assert(b == s[2 + j]);
            url.push(b);
            j = j + 1;
        }
        assert(url@ =~= s.subrange(2, 2 + dl as int));
        if !check_utf8(url.as_slice()) {
            let _ = buf_split_to(buf, offset + 2 + dl);
            return AddrOut::BadEncoding;
        }
        let hi = buf_byte(buf, offset + 2 + dl);
        let lo = buf_byte(buf, offset + 3 + dl);
        assert(hi == s[2 + dl as int] && lo == s[3 + dl as int]);
        let _ = buf_split_to(buf, offset + 4 + dl);
        let port: u16 = (hi as u16) * 256 + (lo as u16);
        AddrOut::Done(AddrInfo { atyp, ip: Ip::new(0, 0, 0, 0), url, port })
    } else {
        AddrOut::Unsupported
    }
}

/// Appends the encoding of an address to the buffer; the exact mirror of
/// `parse_addr`. The domain must fit the one-byte length prefix.
pub fn write_addr(buf: &mut BytesMut, atyp: u8, ip: &Ip, url: &Vec<u8>, port: u16)
    requires
        url@.len() <= 255,
    ensures
        bytes_view(*final(buf)) == bytes_view(*old(buf)) + encode_addr_spec(
            atyp,
            *ip,
            url@,
            port,
        ),
{
    buf_put_u8(buf, atyp);
    if atyp == 1 {
        buf_put_u8(buf, ip.first);
        buf_put_u8(buf, ip.second);
        buf_put_u8(buf, ip.third);
        buf_put_u8(buf, ip.forth);
    } else {
        buf_put_u8(buf, url.len() as u8);
        buf_extend(buf, url.as_slice());
    }
    buf_put_u16_be(buf, port);
    proof {
        assert(bytes_view(*buf) =~= bytes_view(*old(buf)) + encode_addr_spec(
            atyp,
            *ip,
            url@,
            port,
        ));
    }
}

/// Decoding inverts encoding: a well-formed address value, once encoded,
/// parses back to exactly itself, consuming the whole encoding.
pub proof fn lemma_addr_round_trip(atyp: u8, ip: Ip, url: Seq<u8>, port: u16)
    requires
        atyp == 1 ==> url == Seq::<u8>::empty(),
        atyp == 3 ==> ip == no_ip() && url.len() <= 255 && valid_utf8(url),
        atyp == 1 || atyp == 3,
    ensures
        parse_addr_spec(encode_addr_spec(atyp, ip, url, port)) == (AddrSpec::Done {
            atyp,
            ip,
            url,
            port,
            consumed: encode_addr_spec(atyp, ip, url, port).len() as int,
        }),
{
    let e = encode_addr_spec(atyp, ip, url, port);
    assert(port / 256 < 256);
    assert(be16((port / 256) as u8, (port % 256) as u8) == port);
    if atyp == 1 {
        assert(e.len() == 7);
        assert(parse_addr_spec(e) is Done);
    } else {
        let dl = url.len() as int;
        assert(e.len() == 4 + dl);
        assert(e[1] == dl);
        assert(e.subrange(2, 2 + dl) =~= url);
        assert(e[2 + dl] == (port / 256) as u8);
        assert(e[3 + dl] == (port % 256) as u8);
    }
}

/// The bytes of a chunked delivery, in arrival order.
pub open spec fn concat_chunks(cs: Seq<Seq<u8>>) -> Seq<u8>
    decreases cs.len(),
{
    if cs.len() == 0 {
        Seq::empty()
    } else {
        concat_chunks(cs.drop_last()) + cs.last()
    }
}

/// Splitting a delivery anywhere splits its bytes there.
pub proof fn lemma_concat_chunks_split(cs: Seq<Seq<u8>>, i: int)
    requires
        0 <= i <= cs.len(),
    ensures
        concat_chunks(cs) == concat_chunks(cs.take(i)) + concat_chunks(cs.skip(i)),
    decreases cs.len(),
{
    if i == cs.len() {
        assert(cs.take(i) =~= cs);
        assert(cs.skip(i) =~= Seq::<Seq<u8>>::empty());
        assert(concat_chunks(cs.take(i)) + concat_chunks(cs.skip(i)) =~= concat_chunks(cs));
    } else {
        lemma_concat_chunks_split(cs.drop_last(), i);
        assert(cs.drop_last().take(i) =~= cs.take(i));
        assert(cs.drop_last().skip(i) =~= cs.skip(i).drop_last());
        assert(cs.skip(i).last() == cs.last());
        assert(concat_chunks(cs.take(i)) + concat_chunks(cs.skip(i).drop_last()) + cs.last()
            =~= concat_chunks(cs.take(i)) + (concat_chunks(cs.skip(i).drop_last()) + cs.last()));
        assert(concat_chunks(cs) =~= concat_chunks(cs.take(i)) + concat_chunks(cs.skip(i)));
    }
}

/// A complete address never claims more bytes than the input holds.
pub proof fn lemma_addr_consumed_bounds(s: Seq<u8>)
    ensures
        parse_addr_spec(s) matches AddrSpec::Done { consumed, .. } ==> 1 <= consumed <= s.len(),
{
}

/// Delivering a frame as any ordered sequence of chunks decodes exactly as
/// delivering it whole: once the verdict is reached, after however many
/// chunks, it is the verdict of the whole delivery.
pub proof fn lemma_parse_addr_chunked(cs: Seq<Seq<u8>>, i: int)
    requires
        0 <= i <= cs.len(),
        !(parse_addr_spec(concat_chunks(cs.take(i))) is NeedMore),
    ensures
        parse_addr_spec(concat_chunks(cs)) == parse_addr_spec(concat_chunks(cs.take(i))),
{
    lemma_concat_chunks_split(cs, i);
    lemma_parse_addr_extend(concat_chunks(cs.take(i)), concat_chunks(cs.skip(i)));
}

/// Every strict prefix of an exactly-consumed address parses as `NeedMore`:
/// until a chunked delivery completes the frame, no verdict is reached and
/// nothing is consumed.
pub proof fn lemma_addr_prefix_need_more(f: Seq<u8>, i: int)
    requires
        0 <= i < f.len(),
        parse_addr_spec(f) matches AddrSpec::Done { consumed, .. } && consumed == f.len(),
    ensures
        parse_addr_spec(f.take(i)) is NeedMore,
{
    let p = f.take(i);
    if !(parse_addr_spec(p) is NeedMore) {
        lemma_parse_addr_extend(p, f.skip(i));
        assert(p + f.skip(i) =~= f);
        lemma_addr_consumed_bounds(p);
        assert(false);
    }
}

/// A parse that has reached a verdict keeps that verdict however many bytes
/// arrive later: only `NeedMore` can change, so delivering a frame in chunks
/// decodes exactly as delivering it whole.
pub proof fn lemma_parse_addr_extend(s: Seq<u8>, t: Seq<u8>)
    requires
        !(parse_addr_spec(s) is NeedMore),
    ensures
        parse_addr_spec(s + t) == parse_addr_spec(s),
{
    let u = s + t;
    assert(forall|i: int| 0 <= i < s.len() ==> u[i] == s[i]);
    if s[0] == 3 && s.len() >= 2 {
        let dl = s[1] as int;
        if s.len() >= 2 + dl + 2 {
            assert(u.subrange(2, 2 + dl) =~= s.subrange(2, 2 + dl));
        }
    }
}

} // verus!
