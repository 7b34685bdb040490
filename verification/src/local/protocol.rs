use vstd::prelude::*;

use crate::addr::encode_addr_spec;
use crate::addr::parse_addr;
use crate::addr::parse_addr_spec;
use crate::addr::AddrOut;
use crate::addr::AddrSpec;
use crate::buffer::buf_byte;
use crate::buffer::buf_extend;
use crate::buffer::buf_len;
use crate::buffer::buf_put_u8;
use crate::buffer::buf_split_to;
use crate::buffer::buf_to_vec;
use crate::buffer::buf_with_capacity;
use crate::buffer::bytes_view;
use crate::define::ErrCode;
use crate::define::Ip;
use bytes::BytesMut;

verus! {

/// The fields of a client connect request:
/// `[ver][cmd][rsv][atyp][addr][port]`.
#[derive(Debug)]
pub struct ConnectHead {
    pub version: u8,
    pub cmd: u8,
    pub rsv: u8,
    pub atyp: u8,
    pub ip: Ip,
    pub url: Vec<u8>,
    pub port: u16,
}

impl ConnectHead {
    pub fn new() -> (r: Self)
        ensures
            r.version == 0,
            r.cmd == 0,
            r.rsv == 0,
            r.atyp == 0,
            r.ip == (Ip { first: 0, second: 0, third: 0, forth: 0 }),
            r.url@ == Seq::<u8>::empty(),
            r.port == 0,
    {
        ConnectHead {
            version: 0,
            cmd: 0,
            rsv: 0,
            atyp: 0,
            ip: Ip::new(0, 0, 0, 0),
            url: Vec::new(),
            port: 0,
        }
    }

    pub fn set_version(&mut self, version: u8)
        ensures
            *final(self) == (ConnectHead { version: version, ..*old(self) }),
    {
        self.version = version;
    }

    pub fn set_cmd(&mut self, cmd: u8)
        ensures
            *final(self) == (ConnectHead { cmd: cmd, ..*old(self) }),
    {
        self.cmd = cmd;
    }

    pub fn set_rsv(&mut self, rsv: u8)
        ensures
            *final(self) == (ConnectHead { rsv: rsv, ..*old(self) }),
    {
        self.rsv = rsv;
    }

    pub fn set_atyp(&mut self, atyp: u8)
        ensures
            *final(self) == (ConnectHead { atyp: atyp, ..*old(self) }),
    {
        self.atyp = atyp;
    }

    pub fn set_port(&mut self, port: u16)
        ensures
            *final(self) == (ConnectHead { port: port, ..*old(self) }),
    {
        self.port = port;
    }

    pub fn set_ip(&mut self, ip: Ip)
        ensures
            *final(self) == (ConnectHead { ip: ip, ..*old(self) }),
    {
        self.ip = ip;
    }

    pub fn set_url(&mut self, url: &[u8])
        ensures
            final(self).url@ == url@,
            *final(self) == (ConnectHead { url: final(self).url, ..*old(self) }),
    {
        self.url = vstd::slice::slice_to_vec(url);
    }
}

/// The fields of the client greeting that are kept once it is accepted.
#[derive(Debug, PartialEq, Eq, Structural, Clone, Copy)]
pub struct StartHead {
    pub version: u8,
    pub method: u8,
}

impl StartHead {
    pub fn new() -> (r: Self)
        ensures
            r.version == 0,
            r.method == 0,
    {
        StartHead { version: 0, method: 0 }
    }

    pub fn set_version(&mut self, version: u8)
        ensures
            *final(self) == (StartHead { version: version, ..*old(self) }),
    {
        self.version = version;
    }

    pub fn set_method(&mut self, method: u8)
        ensures
            *final(self) == (StartHead { method: method, ..*old(self) }),
    {
        self.method = method;
    }
}

/// The ordered progression of a client-facing connection:
/// greeting, then connect request, then relaying.
#[derive(PartialEq, Eq, Structural, Debug, Copy, Clone)]
pub enum ProStep {
    Start,
    Connect,
    ConnectTarget,
}

impl ProStep {
    /// Advances to the next step. The final step has no successor: a caller
    /// that would advance past it has broken the protocol's progression.
    pub fn next(&mut self)
        requires
            *old(self) != ProStep::ConnectTarget,
        ensures
            *old(self) == ProStep::Start ==> *final(self) == ProStep::Connect,
            *old(self) == ProStep::Connect ==> *final(self) == ProStep::ConnectTarget,
    {
        match *self {
            ProStep::Start => {
                *self = ProStep::Connect;
            },
            ProStep::Connect => {
                *self = ProStep::ConnectTarget;
            },
            ProStep::ConnectTarget => {
            },
        }
    }
}

/// What a buffered byte sequence holds of the greeting
/// `[ver][nmethods][methods...]`.
pub enum GreetSpec {
    /// Fewer than three bytes, or fewer methods than announced: wait,
    /// consuming nothing.
    NeedMore,
    /// The greeting is complete but the version is not 5 or no-auth is not
    /// offered; its `2 + nmethods` bytes are consumed and the connection is
    /// torn down with no reply.
    Rejected,
    /// Version 5 with the no-auth method offered; `2 + n` bytes consumed.
    Accepted { n: int },
}

/// True when one of the `n` offered methods is 0, "no authentication".
pub open spec fn offers_no_auth(s: Seq<u8>, n: int) -> bool {
    exists|k: int| 2 <= k < 2 + n && s[k] == 0
}

pub open spec fn parse_greeting_spec(s: Seq<u8>) -> GreetSpec {
    if s.len() < 3 {
        GreetSpec::NeedMore
    } else {
        let n = s[1] as int;
        if s.len() < 2 + n {
            GreetSpec::NeedMore
        } else if s[0] == 5 && offers_no_auth(s, n) {
            GreetSpec::Accepted { n }
        } else {
            GreetSpec::Rejected
        }
    }
}

/// What a buffered byte sequence holds of the connect request: three fixed
/// bytes, then the shared address format.
pub enum ConnectSpec {
    NeedMore,
    Unsupported,
    BadEncoding,
    Done {
        version: u8,
        cmd: u8,
        rsv: u8,
        atyp: u8,
        ip: Ip,
        url: Seq<u8>,
        port: u16,
        consumed: int,
    },
}

pub open spec fn parse_connect_spec(s: Seq<u8>) -> ConnectSpec {
    if s.len() < 4 {
        ConnectSpec::NeedMore
    } else {
        match parse_addr_spec(s.skip(3)) {
            AddrSpec::NeedMore => ConnectSpec::NeedMore,
            AddrSpec::Unsupported => ConnectSpec::Unsupported,
            AddrSpec::BadEncoding => ConnectSpec::BadEncoding,
            AddrSpec::Done { atyp, ip, url, port, consumed } => ConnectSpec::Done {
                version: s[0],
                cmd: s[1],
                rsv: s[2],
                atyp,
                ip,
                url,
                port,
                consumed: 3 + consumed,
            },
        }
    }
}

/// What the caller must do next after feeding bytes to the engine.
#[derive(Debug, PartialEq, Eq, Structural, Clone, Copy)]
pub enum Action {
    /// Nothing decided yet: read more bytes from the client.
    Pending,
    /// The greeting was accepted: send `back_start_head()` to the client.
    SendGreeting,
    /// The connect request is complete: open the relay connection.
    OpenRelay,
}

/// The per-connection protocol engine for the client-facing agent: an
/// accumulating buffer plus the handshake state machine. Socket reads and
/// writes stay with the caller; the engine only consumes buffered bytes and
/// says what to send.
#[derive(Debug)]
pub struct Protocol {
    pub buf: BytesMut,
    pub step: ProStep,
    pub start_head: StartHead,
    pub conn_head: ConnectHead,
}

impl Protocol {
    pub fn new() -> (r: Self)
        ensures
            bytes_view(r.buf) == Seq::<u8>::empty(),
            r.step == ProStep::Start,
            r.start_head == (StartHead { version: 0, method: 0 }),
            r.conn_head.version == 0,
            r.conn_head.cmd == 0,
            r.conn_head.rsv == 0,
            r.conn_head.atyp == 0,
            r.conn_head.ip == (Ip { first: 0, second: 0, third: 0, forth: 0 }),
            r.conn_head.url@ == Seq::<u8>::empty(),
            r.conn_head.port == 0,
    {
        Protocol {
            buf: buf_with_capacity(1024),
            step: ProStep::Start,
            start_head: StartHead::new(),
            conn_head: ConnectHead::new(),
        }
    }

    /// Appends freshly read client bytes to the connection buffer.
    pub fn feed(&mut self, data: &[u8])
        ensures
            bytes_view(final(self).buf) == bytes_view(old(self).buf) + data@,
            final(self).step == old(self).step,
            final(self).start_head == old(self).start_head,
            final(self).conn_head == old(self).conn_head,
    {
        buf_extend(&mut self.buf, data);
    }

    /// The bytes buffered beyond what the handshake consumed; a client may
    /// pipeline payload right after its request and none of it may be lost.
    pub fn pending(&self) -> (r: Vec<u8>)
        ensures
            r@ == bytes_view(self.buf),
    {
        buf_to_vec(&self.buf)
    }

    /// The fixed two-byte acceptance reply to the greeting.
    pub fn back_start_head(&self) -> (r: Vec<u8>)
        ensures
            r@ == seq![5u8, 0u8],
    {
        let mut v: Vec<u8> = Vec::new();
        v.push(5);
        v.push(0);
        proof {
            assert(v@ =~= seq![5u8, 0u8]);
        }
        v
    }

    /// Attempts to read the greeting off the buffer, exactly as
    /// `parse_greeting_spec` describes it: `Ok(true)` accepts and advances
    /// to the connect-request step, `Ok(false)` waits without consuming,
    /// and a rejected greeting is a fatal protocol error.
    pub fn get_start_head(&mut self) -> (r: Result<bool, ErrCode>)
        requires
            old(self).step == ProStep::Start,
        ensures
            ({
                let s = bytes_view(old(self).buf);
                match parse_greeting_spec(s) {
                    GreetSpec::NeedMore => {
                        &&& r == Ok::<bool, ErrCode>(false)
                        &&& bytes_view(final(self).buf) == s
                        &&& final(self).step == old(self).step
                        &&& final(self).start_head == old(self).start_head
                        &&& final(self).conn_head == old(self).conn_head
                    },
                    GreetSpec::Rejected => {
                        &&& r == Err::<bool, ErrCode>(ErrCode::UnImplementErr)
                        &&& bytes_view(final(self).buf) == s.skip(2 + s[1])
                        &&& final(self).step == old(self).step
                        &&& final(self).conn_head == old(self).conn_head
                    },
                    GreetSpec::Accepted { n } => {
                        &&& r == Ok::<bool, ErrCode>(true)
                        &&& bytes_view(final(self).buf) == s.skip(2 + n)
                        &&& final(self).step == ProStep::Connect
                        &&& final(self).start_head == (StartHead { version: 5, method: 0 })
                        &&& final(self).conn_head == old(self).conn_head
                    },
                }
            }),
    {
        let ghost s = bytes_view(self.buf);
        let total = buf_len(&self.buf);
        if total < 3 {
            return Ok(false);
        }
        let version = buf_byte(&self.buf, 0);
        let method_len = buf_byte(&self.buf, 1) as usize;
        if total < method_len + 2 {
            return Ok(false);
        }
        let _ = buf_split_to(&mut self.buf, 2);
        let method_buf = buf_split_to(&mut self.buf, method_len);
        proof {
            assert(bytes_view(self.buf) =~= s.skip(2 + method_len as int));
        }
        let mut has_no_auth = false;
        let mut k: usize = 0;
        while k < method_len
            invariant
                k <= method_len,
                bytes_view(method_buf).len() == method_len,
                bytes_view(method_buf) == s.skip(2).take(method_len as int),
                2 + method_len <= s.len(),
                has_no_auth <==> exists|i: int|
                    0 <= i < k && bytes_view(method_buf)[i] == 0,
            decreases method_len - k,
        {
            if buf_byte(&method_buf, k) == 0 {
                has_no_auth = true;
            }
            k = k + 1;
        }
        proof {
            let n = method_len as int;
            if has_no_auth {
                let i = choose|i: int| 0 <= i < n && bytes_view(method_buf)[i] == 0;
                assert(s[2 + i] == bytes_view(method_buf)[i]);
                assert(offers_no_auth(s, n));
            }
            if offers_no_auth(s, n) {
                let k0 = choose|k0: int| 2 <= k0 < 2 + n && s[k0] == 0;
                assert(bytes_view(method_buf)[k0 - 2] == s[k0]);
            }
        }
        if version != 5 {
            return Err(ErrCode::UnImplementErr);
        }
        if !has_no_auth {
            return Err(ErrCode::UnImplementErr);
        }
        self.start_head.set_version(version);
        self.start_head.set_method(0);
        self.step.next();
        Ok(true)
    }

    /// Attempts to read the connect request off the buffer, exactly as
    /// `parse_connect_spec` describes it: on success the destination is
    /// recorded and the engine moves to the relaying step.
    pub fn connect(&mut self) -> (r: Result<bool, ErrCode>)
        requires
            old(self).step == ProStep::Connect,
        ensures
            ({
                let s = bytes_view(old(self).buf);
                match parse_connect_spec(s) {
                    ConnectSpec::NeedMore => {
                        &&& r == Ok::<bool, ErrCode>(false)
                        &&& bytes_view(final(self).buf) == s
                        &&& final(self).step == old(self).step
                        &&& final(self).start_head == old(self).start_head
                        &&& final(self).conn_head == old(self).conn_head
                    },
                    ConnectSpec::Unsupported => {
                        &&& r == Err::<bool, ErrCode>(ErrCode::UnImplementErr)
                        &&& bytes_view(final(self).buf) == s
                        &&& final(self).step == old(self).step
                        &&& final(self).start_head == old(self).start_head
                        &&& final(self).conn_head == old(self).conn_head
                    },
                    ConnectSpec::BadEncoding => {
                        &&& r == Err::<bool, ErrCode>(ErrCode::SocketErr)
                        &&& bytes_view(final(self).buf) == s.skip(5 + s[4])
                        &&& final(self).step == old(self).step
                        &&& final(self).start_head == old(self).start_head
                        &&& final(self).conn_head == old(self).conn_head
                    },
                    ConnectSpec::Done { version, cmd, rsv, atyp, ip, url, port, consumed } => {
                        &&& r == Ok::<bool, ErrCode>(true)
                        &&& bytes_view(final(self).buf) == s.skip(consumed)
                        &&& final(self).step == ProStep::ConnectTarget
                        &&& final(self).start_head == old(self).start_head
                        &&& final(self).conn_head.version == version
                        &&& final(self).conn_head.cmd == cmd
                        &&& final(self).conn_head.rsv == rsv
                        &&& final(self).conn_head.atyp == atyp
                        &&& final(self).conn_head.ip == ip
                        &&& final(self).conn_head.url@ == url
                        &&& final(self).conn_head.port == port
                    },
                }
            }),
    {
        let ghost s = bytes_view(self.buf);
        let total = buf_len(&self.buf);
        if total < 4 {
            return Ok(false);
        }
        let version = buf_byte(&self.buf, 0);
        let cmd = buf_byte(&self.buf, 1);
        let rsv = buf_byte(&self.buf, 2);
        match parse_addr(&mut self.buf, 3) {
            AddrOut::NeedMore => Ok(false),
            AddrOut::Unsupported => Err(ErrCode::UnImplementErr),
            AddrOut::BadEncoding => Err(ErrCode::SocketErr),
            AddrOut::Done(info) => {
                let mut head = ConnectHead::new();
                head.set_version(version);
                head.set_cmd(cmd);
                head.set_rsv(rsv);
                head.set_atyp(info.atyp);
                head.set_ip(info.ip);
                head.set_url(info.url.as_slice());
                head.set_port(info.port);
                self.conn_head = head;
                self.step.next();
                Ok(true)
            },
        }
    }

    /// Dispatches on the current step, as the read loop does after each
    /// feed: the greeting and connect-request parsers run in turn, and the
    /// returned action says what the caller must do with its sockets.
    pub fn handle(&mut self) -> (r: Result<Action, ErrCode>)
        ensures
            ({
                let s = bytes_view(old(self).buf);
                match old(self).step {
                    ProStep::Start => {
                        &&& (parse_greeting_spec(s) is Accepted <==> r == Ok::<Action, ErrCode>(
                            Action::SendGreeting,
                        ))
                        &&& (parse_greeting_spec(s) is NeedMore <==> r == Ok::<Action, ErrCode>(
                            Action::Pending,
                        ))
                        &&& (parse_greeting_spec(s) is Rejected <==> r == Err::<Action, ErrCode>(
                            ErrCode::UnImplementErr,
                        ))
                        &&& (parse_greeting_spec(s) is Accepted ==> final(self).step
                            == ProStep::Connect)
                    },
                    ProStep::Connect => {
                        &&& (parse_connect_spec(s) is Done <==> r == Ok::<Action, ErrCode>(
                            Action::OpenRelay,
                        ))
                        &&& (parse_connect_spec(s) is NeedMore <==> r == Ok::<Action, ErrCode>(
                            Action::Pending,
                        ))
                        &&& (parse_connect_spec(s) is Unsupported <==> r == Err::<
                            Action,
                            ErrCode,
                        >(ErrCode::UnImplementErr))
                        &&& (parse_connect_spec(s) is BadEncoding <==> r == Err::<
                            Action,
                            ErrCode,
                        >(ErrCode::SocketErr))
                        &&& (parse_connect_spec(s) is Done ==> final(self).step
                            == ProStep::ConnectTarget)
                        &&& (parse_connect_spec(s) matches ConnectSpec::Done {
                            atyp,
                            ip,
                            url,
                            port,
                            ..
                        } ==> final(self).conn_head.atyp == atyp && final(self).conn_head.ip == ip
                            && final(self).conn_head.url@ == url && final(self).conn_head.port
                            == port)
                    },
                    ProStep::ConnectTarget => r == Ok::<Action, ErrCode>(Action::Pending),
                }
            }),
    {
        match self.step {
            ProStep::Start => {
                let done = self.get_start_head()?;
                if done {
                    Ok(Action::SendGreeting)
                } else {
                    Ok(Action::Pending)
                }
            },
            ProStep::Connect => {
                let done = self.connect()?;
                if done {
                    Ok(Action::OpenRelay)
                } else {
                    Ok(Action::Pending)
                }
            },
            ProStep::ConnectTarget => Ok(Action::Pending),
        }
    }

    /// The relay header sent once to the remote agent: the destination in
    /// the shared address format, with no version/cmd/reserved prefix. The
    /// caller passes it (and everything after it) through the codec.
    pub fn ss_head(&self) -> (r: Vec<u8>)
        requires
            self.conn_head.url@.len() <= 255,
        ensures
            r@ == encode_addr_spec(
                self.conn_head.atyp,
                self.conn_head.ip,
                self.conn_head.url@,
                self.conn_head.port,
            ),
    {
        let mut b = buf_with_capacity(32);
        crate::addr::write_addr(
            &mut b,
            self.conn_head.atyp,
            &self.conn_head.ip,
            &self.conn_head.url,
            self.conn_head.port,
        );
        proof {
            assert(bytes_view(b) =~= encode_addr_spec(
                self.conn_head.atyp,
                self.conn_head.ip,
                self.conn_head.url@,
                self.conn_head.port,
            ));
        }
        buf_to_vec(&b)
    }

    /// The success reply `[5,0,0]` followed by the request's own address
    /// encoding, sent to the client once the relay connection stands.
    pub fn connect_success(&self) -> (r: Vec<u8>)
        requires
            self.conn_head.url@.len() <= 255,
        ensures
            r@ == seq![5u8, 0u8, 0u8] + encode_addr_spec(
                self.conn_head.atyp,
                self.conn_head.ip,
                self.conn_head.url@,
                self.conn_head.port,
            ),
    {
        self.reply(0)
    }

    /// The failure reply `[5,1,0]` with the same address encoding, sent when
    /// the relay connection could not be opened.
    pub fn connect_err(&self) -> (r: Vec<u8>)
        requires
            self.conn_head.url@.len() <= 255,
        ensures
            r@ == seq![5u8, 1u8, 0u8] + encode_addr_spec(
                self.conn_head.atyp,
                self.conn_head.ip,
                self.conn_head.url@,
                self.conn_head.port,
            ),
    {
        self.reply(1)
    }

    fn reply(&self, rep: u8) -> (r: Vec<u8>)
        requires
            self.conn_head.url@.len() <= 255,
        ensures
            r@ == seq![5u8, rep, 0u8] + encode_addr_spec(
                self.conn_head.atyp,
                self.conn_head.ip,
                self.conn_head.url@,
                self.conn_head.port,
            ),
    {
        let mut b = buf_with_capacity(32);
        buf_put_u8(&mut b, 5);
        buf_put_u8(&mut b, rep);
        buf_put_u8(&mut b, 0);
        crate::addr::write_addr(
            &mut b,
            self.conn_head.atyp,
            &self.conn_head.ip,
            &self.conn_head.url,
            self.conn_head.port,
        );
        proof {
            assert(bytes_view(b) =~= seq![5u8, rep, 0u8] + encode_addr_spec(
                self.conn_head.atyp,
                self.conn_head.ip,
                self.conn_head.url@,
                self.conn_head.port,
            ));
        }
        buf_to_vec(&b)
    }
}

/// A greeting parse that has reached a verdict keeps that verdict however
/// many bytes are appended: chunked delivery decodes as whole delivery.
pub proof fn lemma_parse_greeting_extend(s: Seq<u8>, t: Seq<u8>)
    requires
        !(parse_greeting_spec(s) is NeedMore),
    ensures
        parse_greeting_spec(s + t) == parse_greeting_spec(s),
{
    let u = s + t;
    assert(forall|i: int| 0 <= i < s.len() ==> u[i] == s[i]);
    let n = s[1] as int;
    if offers_no_auth(s, n) {
        let k = choose|k: int| 2 <= k < 2 + n && s[k] == 0;
        assert(u[k] == 0);
        assert(offers_no_auth(u, n));
    }
    if offers_no_auth(u, n) {
        let k = choose|k: int| 2 <= k < 2 + n && u[k] == 0;
        assert(s[k] == 0);
        assert(offers_no_auth(s, n));
    }
}

/// A connect-request parse that has reached a verdict keeps that verdict
/// however many bytes are appended.
pub proof fn lemma_parse_connect_extend(s: Seq<u8>, t: Seq<u8>)
    requires
        !(parse_connect_spec(s) is NeedMore),
    ensures
        parse_connect_spec(s + t) == parse_connect_spec(s),
{
    let u = s + t;
    assert(forall|i: int| 0 <= i < s.len() ==> u[i] == s[i]);
    assert(u.skip(3) =~= s.skip(3) + t);
    crate::addr::lemma_parse_addr_extend(s.skip(3), t);
}

/// Delivering a greeting as any ordered sequence of chunks decodes exactly
/// as delivering it whole: the verdict reached after however many chunks is
/// the verdict of the whole delivery.
pub proof fn lemma_parse_greeting_chunked(cs: Seq<Seq<u8>>, i: int)
    requires
        0 <= i <= cs.len(),
        !(parse_greeting_spec(crate::addr::concat_chunks(cs.take(i))) is NeedMore),
    ensures
        parse_greeting_spec(crate::addr::concat_chunks(cs)) == parse_greeting_spec(
            crate::addr::concat_chunks(cs.take(i)),
        ),
{
    crate::addr::lemma_concat_chunks_split(cs, i);
    lemma_parse_greeting_extend(
        crate::addr::concat_chunks(cs.take(i)),
        crate::addr::concat_chunks(cs.skip(i)),
    );
}

/// Every strict prefix of an exactly-consumed greeting parses as
/// `NeedMore`: a chunked delivery reaches no verdict, and consumes nothing,
/// before the frame is complete.
pub proof fn lemma_greeting_prefix_need_more(f: Seq<u8>, i: int)
    requires
        0 <= i < f.len(),
        parse_greeting_spec(f) matches GreetSpec::Accepted { n } && 2 + n == f.len(),
    ensures
        parse_greeting_spec(f.take(i)) is NeedMore,
{
    let p = f.take(i);
    if !(parse_greeting_spec(p) is NeedMore) {
        lemma_parse_greeting_extend(p, f.skip(i));
        assert(p + f.skip(i) =~= f);
        assert(false);
    }
}

/// Delivering a connect request as any ordered sequence of chunks decodes
/// exactly as delivering it whole.
pub proof fn lemma_parse_connect_chunked(cs: Seq<Seq<u8>>, i: int)
    requires
        0 <= i <= cs.len(),
        !(parse_connect_spec(crate::addr::concat_chunks(cs.take(i))) is NeedMore),
    ensures
        parse_connect_spec(crate::addr::concat_chunks(cs)) == parse_connect_spec(
            crate::addr::concat_chunks(cs.take(i)),
        ),
{
    crate::addr::lemma_concat_chunks_split(cs, i);
    lemma_parse_connect_extend(
        crate::addr::concat_chunks(cs.take(i)),
        crate::addr::concat_chunks(cs.skip(i)),
    );
}

/// Every strict prefix of an exactly-consumed connect request parses as
/// `NeedMore`.
pub proof fn lemma_connect_prefix_need_more(f: Seq<u8>, i: int)
    requires
        0 <= i < f.len(),
        parse_connect_spec(f) matches ConnectSpec::Done { consumed, .. } && consumed == f.len(),
    ensures
        parse_connect_spec(f.take(i)) is NeedMore,
{
    let p = f.take(i);
    if !(parse_connect_spec(p) is NeedMore) {
        lemma_parse_connect_extend(p, f.skip(i));
        assert(p + f.skip(i) =~= f);
        crate::addr::lemma_addr_consumed_bounds(p.skip(3));
        assert(false);
    }
}

} // verus!
