use vstd::prelude::*;

use crate::buffer::buf_put_u8;
use crate::buffer::buf_with_capacity;
use crate::buffer::bytes_view;
use crate::define::ErrCode;
use crate::define::Ip;
use bytes::BytesMut;
use trust_dns_resolver::config::ResolverConfig;
use trust_dns_resolver::config::ResolverOpts;
use trust_dns_resolver::proto::rr::RData;
use trust_dns_resolver::proto::rr::RecordType;
use trust_dns_resolver::Resolver;

verus! {

/// The obfuscation codec for the inter-agent hop: every byte is replaced by
/// its bitwise complement. Pure and stateless; applying it twice gives the
/// original bytes back.
pub open spec fn transform_spec(s: Seq<u8>) -> Seq<u8> {
    s.map(|_i: int, b: u8| !b)
}

/// The codec is an involution: transforming twice restores every byte
/// sequence.
pub proof fn lemma_transform_involution(s: Seq<u8>)
    ensures
        transform_spec(transform_spec(s)) == s,
{
    assert forall|i: int| 0 <= i < s.len() implies transform_spec(transform_spec(s))[i] == s[i] by {
        let b = s[i];
        assert(!(!b) == b) by (bit_vector);
    }
    assert(transform_spec(transform_spec(s)) =~= s);
}

/// Applies the codec to a chunk of bytes, producing the buffer that crosses
/// the inter-agent hop.
pub fn encode(input: &[u8]) -> (r: BytesMut)
    ensures
        bytes_view(r) == transform_spec(input@),
{
    let mut buf = buf_with_capacity(input.len());
    let mut i: usize = 0;
    while i < input.len()
        invariant
            i <= input@.len(),
            bytes_view(buf) == transform_spec(input@.take(i as int)),
        decreases input@.len() - i,
    {
        let b = input[i];
        buf_put_u8(&mut buf, !b);
        proof {
            assert(transform_spec(input@.take(i + 1)) =~= transform_spec(
                input@.take(i as int),
            ).push(!input@[i as int]));
        }
        i = i + 1;
    }
    proof {
        assert(input@.take(input@.len() as int) =~= input@);
    }
    buf
}

/// Resolves a domain name to its first IPv4 address.
///
/// Relies on trust_dns_resolver: `Resolver::new` with the default
/// configuration, then `Resolver::lookup` for A records; the first A record
/// of the response is taken (records of other types, such as intermediate
/// CNAMEs, are passed over). What comes back depends on the outside world,
/// so nothing is promised of the address itself; every failure surfaces as
/// `ErrCode::UrlErr`.
#[verifier::external_body]
pub fn get_ip_addr(domain: &[u8]) -> (r: Result<Ip, ErrCode>)
    ensures
        (match r {
            Ok(_) => true,
            Err(e) => e == ErrCode::UrlErr,
        }),
{
    let name = String::from_utf8_lossy(domain);
    let resolver = Resolver::new(ResolverConfig::default(), ResolverOpts::default())
        .or(Err(ErrCode::UrlErr))?;
    let response = resolver.lookup(name.as_ref(), RecordType::A).or(Err(ErrCode::UrlErr))?;
    for record in response.iter() {
        if let RData::A(a) = record {
            let o = a.octets();
            return Ok(Ip::new(o[0], o[1], o[2], o[3]));
        }
    }
    Err(ErrCode::UrlErr)
}

} // verus!
