use vstd::prelude::*;

use crate::addr::parse_addr;
use crate::addr::parse_addr_spec;
use crate::addr::AddrOut;
use crate::addr::AddrSpec;
use crate::buffer::buf_put_u8;
use crate::buffer::buf_to_vec;
use crate::buffer::buf_with_capacity;
use crate::buffer::bytes_view;
use crate::define::ErrCode;
use crate::define::Ip;
use crate::helper::transform_spec;
use crate::server::cache::DnsCache;
use bytes::BytesMut;

verus! {

/// The fields of the inter-agent relay header: `[atyp][addr][port]`, with
/// no version/cmd/reserved prefix.
#[derive(Debug)]
pub struct ConnectHead {
    pub atyp: u8,
    pub ip: Ip,
    pub url: Vec<u8>,
    pub port: u16,
}

impl ConnectHead {
    pub fn new() -> (r: Self)
        ensures
            r.atyp == 0,
            r.ip == (Ip { first: 0, second: 0, third: 0, forth: 0 }),
            r.url@ == Seq::<u8>::empty(),
            r.port == 0,
    {
        ConnectHead { atyp: 0, ip: Ip::new(0, 0, 0, 0), url: Vec::new(), port: 0 }
    }

    pub fn set_atyp(&mut self, atyp: u8)
        ensures
            *final(self) == (ConnectHead { atyp: atyp, ..*old(self) }),
    {
        self.atyp = atyp;
    }

    pub fn set_port(&mut self, port: u16)
        ensures
            *final(self) == (ConnectHead { port: port, ..*old(self) }),
    {
        self.port = port;
    }

    pub fn set_ip(&mut self, ip: Ip)
        ensures
            *final(self) == (ConnectHead { ip: ip, ..*old(self) }),
    {
        self.ip = ip;
    }

    pub fn set_url(&mut self, url: &[u8])
        ensures
            final(self).url@ == url@,
            *final(self) == (ConnectHead { url: final(self).url, ..*old(self) }),
    {
        self.url = vstd::slice::slice_to_vec(url);
    }
}

/// The remote-side progression: await the relay header, then relay.
#[derive(PartialEq, Eq, Structural, Debug, Copy, Clone)]
pub enum ProStep {
    Connect,
    ConnectTarget,
}

impl ProStep {
    /// Advances to the next step. The final step has no successor: a caller
    /// that would advance past it has broken the protocol's progression.
    pub fn next(&mut self)
        requires
            *old(self) != ProStep::ConnectTarget,
        ensures
            *final(self) == ProStep::ConnectTarget,
    {
        match *self {
            ProStep::Connect => {
                *self = ProStep::ConnectTarget;
            },
            ProStep::ConnectTarget => {
            },
        }
    }
}

/// What the caller must do next after feeding bytes to the engine.
#[derive(Debug, PartialEq, Eq, Structural, Clone, Copy)]
pub enum Action {
    /// Nothing decided yet: read more bytes from the peer agent.
    Pending,
    /// The relay header is complete: resolve the destination and dial it.
    OpenTarget,
}

/// The per-connection protocol engine for the remote agent. Bytes arriving
/// from the inter-agent hop are codec-decoded as they are buffered; the
/// relay header is then read off the buffer with the shared address codec,
/// and the destination is resolved through the shared cache.
pub struct Protocol {
    pub buf: BytesMut,
    pub step: ProStep,
    pub conn_head: ConnectHead,
    pub cache: DnsCache,
}

impl Protocol {
    pub fn new(cache: DnsCache) -> (r: Self)
        ensures
            bytes_view(r.buf) == Seq::<u8>::empty(),
            r.step == ProStep::Connect,
            r.conn_head.atyp == 0,
            r.conn_head.ip == (Ip { first: 0, second: 0, third: 0, forth: 0 }),
            r.conn_head.url@ == Seq::<u8>::empty(),
            r.conn_head.port == 0,
    {
        Protocol {
            buf: buf_with_capacity(1024),
            step: ProStep::Connect,
            conn_head: ConnectHead::new(),
            cache,
        }
    }

    /// Buffers freshly read wire bytes, decoding them through the codec:
    /// everything that crosses the inter-agent hop is transformed, so the
    /// buffer always holds plain bytes.
    pub fn feed(&mut self, data: &[u8])
        ensures
            bytes_view(final(self).buf) == bytes_view(old(self).buf) + transform_spec(data@),
            final(self).step == old(self).step,
            final(self).conn_head == old(self).conn_head,
    {
        let mut i: usize = 0;
        while i < data.len()
            invariant
                i <= data@.len(),
                bytes_view(self.buf) == bytes_view(old(self).buf) + transform_spec(
                    data@.take(i as int),
                ),
                self.step == old(self).step,
                self.conn_head == old(self).conn_head,
                self.cache == old(self).cache,
            decreases data@.len() - i,
        {
            let b = data[i];
            buf_put_u8(&mut self.buf, !b);
            proof {
                assert(transform_spec(data@.take(i + 1)) =~= transform_spec(
                    data@.take(i as int),
                ).push(!data@[i as int]));
                assert(bytes_view(self.buf) =~= bytes_view(old(self).buf) + transform_spec(
                    data@.take(i + 1),
                ));
            }
            i = i + 1;
        }
        proof {
            assert(data@.take(data@.len() as int) =~= data@);
        }
    }

    /// The decoded bytes buffered beyond the relay header: payload the
    /// local agent pipelined behind it, to forward to the destination.
    pub fn pending(&self) -> (r: Vec<u8>)
        ensures
            r@ == bytes_view(self.buf),
    {
        buf_to_vec(&self.buf)
    }

    /// Attempts to read the relay header off the buffer, exactly as
    /// `parse_addr_spec` describes it: on success the destination is
    /// recorded and the engine moves to the relaying step.
    pub fn connect(&mut self) -> (r: Result<bool, ErrCode>)
        requires
            old(self).step == ProStep::Connect,
        ensures
            ({
                let s = bytes_view(old(self).buf);
                match parse_addr_spec(s) {
                    AddrSpec::NeedMore => {
                        &&& r == Ok::<bool, ErrCode>(false)
                        &&& bytes_view(final(self).buf) == s
                        &&& final(self).step == old(self).step
                        &&& final(self).conn_head == old(self).conn_head
                    },
                    AddrSpec::Unsupported => {
                        &&& r == Err::<bool, ErrCode>(ErrCode::UnImplementErr)
                        &&& bytes_view(final(self).buf) == s
                        &&& final(self).step == old(self).step
                        &&& final(self).conn_head == old(self).conn_head
                    },
                    AddrSpec::BadEncoding => {
                        &&& r == Err::<bool, ErrCode>(ErrCode::SocketErr)
                        &&& bytes_view(final(self).buf) == s.skip(2 + s[1])
                        &&& final(self).step == old(self).step
                        &&& final(self).conn_head == old(self).conn_head
                    },
                    AddrSpec::Done { atyp, ip, url, port, consumed } => {
                        &&& r == Ok::<bool, ErrCode>(true)
                        &&& bytes_view(final(self).buf) == s.skip(consumed)
                        &&& final(self).step == ProStep::ConnectTarget
                        &&& final(self).conn_head.atyp == atyp
                        &&& final(self).conn_head.ip == ip
                        &&& final(self).conn_head.url@ == url
                        &&& final(self).conn_head.port == port
                    },
                }
            }),
    {
        proof {
            assert(bytes_view(self.buf).skip(0) =~= bytes_view(self.buf));
        }
        match parse_addr(&mut self.buf, 0) {
            AddrOut::NeedMore => Ok(false),
            AddrOut::Unsupported => Err(ErrCode::UnImplementErr),
            AddrOut::BadEncoding => Err(ErrCode::SocketErr),
            AddrOut::Done(info) => {
                let mut head = ConnectHead::new();
                head.set_atyp(info.atyp);
                head.set_ip(info.ip);
                head.set_url(info.url.as_slice());
                head.set_port(info.port);
                self.conn_head = head;
                self.step.next();
                Ok(true)
            },
        }
    }

    /// Dispatches on the current step, as the read loop does after each
    /// feed: the returned action says whether the relay header is complete.
    pub fn handle(&mut self) -> (r: Result<Action, ErrCode>)
        ensures
            ({
                let s = bytes_view(old(self).buf);
                match old(self).step {
                    ProStep::Connect => {
                        &&& (parse_addr_spec(s) is Done <==> r == Ok::<Action, ErrCode>(
                            Action::OpenTarget,
                        ))
                        &&& (parse_addr_spec(s) is NeedMore <==> r == Ok::<Action, ErrCode>(
                            Action::Pending,
                        ))
                        &&& (parse_addr_spec(s) is Unsupported <==> r == Err::<Action, ErrCode>(
                            ErrCode::UnImplementErr,
                        ))
                        &&& (parse_addr_spec(s) is BadEncoding <==> r == Err::<Action, ErrCode>(
                            ErrCode::SocketErr,
                        ))
                        &&& (parse_addr_spec(s) is Done ==> final(self).step
                            == ProStep::ConnectTarget)
                        &&& (parse_addr_spec(s) matches AddrSpec::Done { atyp, ip, url, port, .. }
                            ==> final(self).conn_head.atyp == atyp && final(self).conn_head.ip == ip
                            && final(self).conn_head.url@ == url && final(self).conn_head.port
                            == port)
                    },
                    ProStep::ConnectTarget => r == Ok::<Action, ErrCode>(Action::Pending),
                }
            }),
    {
        match self.step {
            ProStep::Connect => {
                let done = self.connect()?;
                if done {
                    Ok(Action::OpenTarget)
                } else {
                    Ok(Action::Pending)
                }
            },
            ProStep::ConnectTarget => Ok(Action::Pending),
        }
    }

    /// Produces the destination address to dial: a raw IPv4 header is used
    /// directly; a domain header is resolved through the shared cache and
    /// the answer recorded in the head. Resolution is the only thing that
    /// can fail, and only with the resolver's error.
    pub fn connect_target(&mut self) -> (r: Result<Ip, ErrCode>)
        ensures
            old(self).conn_head.atyp == 1 ==> r == Ok::<Ip, ErrCode>(old(self).conn_head.ip)
                && *final(self) == *old(self),
            ({
                match r {
                    Ok(ip) => {
                        &&& final(self).conn_head.ip == ip
                        &&& final(self).conn_head.atyp == old(self).conn_head.atyp
                        &&& final(self).conn_head.url == old(self).conn_head.url
                        &&& final(self).conn_head.port == old(self).conn_head.port
                        &&& final(self).step == old(self).step
                        &&& final(self).buf == old(self).buf
                    },
                    Err(e) => e == ErrCode::UrlErr,
                }
            }),
    {
        if self.conn_head.atyp == 1 {
            Ok(self.conn_head.ip)
        } else {
            let ip = match self.cache.get_ip(self.conn_head.url.as_slice()) {
                Ok(ip) => ip,
                Err(_) => {
                    return Err(ErrCode::UrlErr);
                },
            };
            self.conn_head.set_ip(ip);
            Ok(ip)
        }
    }

    /// The remote side has no reply channel toward the local agent: success
    /// needs no message.
    pub fn connect_success(&mut self) -> (r: Result<(), ErrCode>)
        ensures
            r == Ok::<(), ErrCode>(()),
            *final(self) == *old(self),
    {
        Ok(())
    }

    /// Likewise for failure: the connection is simply torn down.
    pub fn connect_err(&mut self) -> (r: Result<(), ErrCode>)
        ensures
            r == Ok::<(), ErrCode>(()),
            *final(self) == *old(self),
    {
        Ok(())
    }
}

} // verus!
