//! The client: what it asks of the exit for a SOCKS5 request, and how it agrees on keys.

use crate::crypto::{
    blake3_key, derive_key, public_key, random_secret, shared_secret, x25519_public, x25519_shared,
};
use crate::text::{
    decimal, decimal_string, is_digit, is_numeral, law_decimal_is_a_numeral,
    law_decimal_reads_back, law_splitting_takes_the_first_part, numeral_value, split,
};
use vstd::prelude::*;
use vstd::string::*;
use vstd::utf8::{decode_utf8, valid_utf8};
use x25519_dalek::EphemeralSecret;

verus! {

/// The host that a SOCKS5 request names.
#[derive(Debug)]
pub enum Host {
    Domain(Vec<u8>),
    Ipv4([u8; 4]),
    Ipv6([u8; 16]),
}

/// Why the client gives up on a request or on an exit.
#[derive(Debug)]
pub enum ClientError {
    /// The request names an IPv6 address.
    Ipv6,
    /// The exit turned the client down, for the given reason.
    Rejected(String),
    /// The exit answered a question that was not asked.
    UnexpectedSharedSecret,
}

impl ClientError {
    /// What the error says.
    pub open spec fn text(&self) -> Seq<char> {
        match self {
            ClientError::Ipv6 => "IPv6 not supported"@,
            ClientError::Rejected(reason) => "exit rejected our authentication attempt: "@
                + reason@,
            ClientError::UnexpectedSharedSecret =>
                "exit sent a shared-secret response to our full authentication request"@,
        }
    }

    /// What the error says.
    pub fn message(&self) -> (s: String)
        ensures
            s@ == self.text(),
    {
        match self {
            ClientError::Ipv6 => "IPv6 not supported".to_owned(),
            ClientError::Rejected(reason) => {
                let mut s: String = "exit rejected our authentication attempt: ".to_owned();
                s.append(reason.as_str());
                s
            },
            ClientError::UnexpectedSharedSecret =>
                "exit sent a shared-secret response to our full authentication request".to_owned(),
        }
    }
}

/// The text that bytes stand for, where what is not UTF-8 is replaced.
pub uninterp spec fn utf8_lossy(bytes: Seq<u8>) -> Seq<char>;

/// `String::from_utf8_lossy` reads bytes as UTF-8 and puts a replacement character for what is
/// not: bytes that are UTF-8 throughout are read as they are.
#[verifier::external_body]
fn lossy_text(bytes: &[u8]) -> (s: String)
    ensures
        s@ == utf8_lossy(bytes@),
        valid_utf8(bytes@) ==> s@ == decode_utf8(bytes@),
{
    String::from_utf8_lossy(bytes).into_owned()
}

/// An IPv4 address in dotted decimal.
pub open spec fn dotted(octets: Seq<u8>) -> Seq<char> {
    decimal(octets[0] as nat) + "."@ + decimal(octets[1] as nat) + "."@ + decimal(octets[2] as nat)
        + "."@ + decimal(octets[3] as nat)
}

/// The text that names a host to the exit, if the exit can be asked for it.
pub open spec fn host_text(host: Host) -> Option<Seq<char>> {
    match host {
        Host::Domain(name) => Some(utf8_lossy(name@)),
        Host::Ipv4(octets) => Some(dotted(octets@)),
        Host::Ipv6(_) => None,
    }
}

/// Writes an IPv4 address in dotted decimal.
pub fn dotted_string(octets: &[u8; 4]) -> (s: String)
    ensures
        s@ == dotted(octets@),
        spells_octets(s@, octets@),
{
    proof {
        law_dotted_reads_back(octets@);
    }
    let mut s: String = decimal_string(octets[0] as u64);
    s.append(".");
    s.append(decimal_string(octets[1] as u64).as_str());
    s.append(".");
    s.append(decimal_string(octets[2] as u64).as_str());
    s.append(".");
    s.append(decimal_string(octets[3] as u64).as_str());
    s
}

/// Whether an address is a host, a colon and the numeral of a port.
pub open spec fn names_port(address: Seq<char>, host: Seq<char>, port: u16) -> bool {
    &&& address.len() > host.len()
    &&& address.take(host.len() as int) == host
    &&& address[host.len() as int] == ':'
    &&& is_numeral(address.skip(host.len() as int + 1))
    &&& numeral_value(address.skip(host.len() as int + 1)) == port
}

/// A host and a port are read back from the address that joins them.
pub proof fn law_address_names_host_and_port(host: Seq<char>, port: u16)
    ensures
        names_port(host + ":"@ + decimal(port as nat), host, port),
{
    reveal_strlit(":");
    let address = host + ":"@ + decimal(port as nat);
    assert(address.take(host.len() as int) =~= host);
    assert(address.skip(host.len() as int + 1) =~= decimal(port as nat));
    law_decimal_reads_back(port as nat);
    law_decimal_is_a_numeral(port as nat);
}

/// Whether a text spells the four octets of an address, in order: four proper numerals with dots
/// between them.
pub open spec fn spells_octets(text: Seq<char>, octets: Seq<u8>) -> bool {
    let parts = split(text, '.');
    &&& parts.len() == 4
    &&& forall|i: int|
        0 <= i < 4 ==> is_numeral(#[trigger] parts[i]) && numeral_value(parts[i]) == octets[i]
}

proof fn lemma_decimal_has_no(n: nat, c: char)
    requires
        !is_digit(c),
    ensures
        !decimal(n).contains(c),
{
    law_decimal_is_a_numeral(n);
    if decimal(n).contains(c) {
        let i = decimal(n).index_of(c);
        assert(is_digit(decimal(n)[i]));
    }
}

/// An IPv4 address in dotted decimal reads back to its octets, in their order.
pub proof fn law_dotted_reads_back(octets: Seq<u8>)
    requires
        octets.len() == 4,
    ensures
        spells_octets(dotted(octets), octets),
{
    reveal_strlit(".");
    let dot = seq!['.'];
    assert("."@ =~= dot);
    let a = decimal(octets[0] as nat);
    let b = decimal(octets[1] as nat);
    let c = decimal(octets[2] as nat);
    let d = decimal(octets[3] as nat);
    lemma_decimal_has_no(octets[0] as nat, '.');
    lemma_decimal_has_no(octets[1] as nat, '.');
    lemma_decimal_has_no(octets[2] as nat, '.');
    lemma_decimal_has_no(octets[3] as nat, '.');
    law_splitting_takes_the_first_part(d, '.', Seq::empty());
    law_splitting_takes_the_first_part(c, '.', d);
    law_splitting_takes_the_first_part(b, '.', c + dot + d);
    law_splitting_takes_the_first_part(a, '.', b + dot + (c + dot + d));
    assert(dotted(octets) =~= a + dot + (b + dot + (c + dot + d)));
    let parts = split(dotted(octets), '.');
    assert(parts =~= seq![a, b, c, d]);
    assert forall|i: int| 0 <= i < 4 implies is_numeral(#[trigger] parts[i]) && numeral_value(
        parts[i],
    ) == octets[i] by {
        law_decimal_is_a_numeral(octets[i] as nat);
        law_decimal_reads_back(octets[i] as nat);
    }
}

/// Only IPv6 addresses are turned down. An IPv4 address is asked for by its octets, a name by what
/// its bytes stand for.
pub proof fn law_only_ipv6_is_turned_down(host: Host)
    ensures
        host_text(host) is None <==> host is Ipv6,
        host matches Host::Ipv4(octets) ==> spells_octets(host_text(host)->0, octets@),
        host matches Host::Domain(name) ==> host_text(host) == Some(utf8_lossy(name@)),
{
    if let Host::Ipv4(octets) = host {
        law_dotted_reads_back(octets@);
    }
}

/// Joins a host and a port number.
pub fn host_and_port(host: &str, port: u16) -> (s: String)
    ensures
        s@ == host@ + ":"@ + decimal(port as nat),
        names_port(s@, host@, port),
{
    let mut s: String = host.to_owned();
    s.append(":");
    s.append(decimal_string(port as u64).as_str());
    proof {
        law_address_names_host_and_port(host@, port);
    }
    s
}

/// A SOCKS5 request to connect.
#[derive(Debug)]
pub struct SocksRequest {
    pub host: Host,
    pub port: u16,
}

impl SocksRequest {
    /// The address to ask the exit for.
    pub fn remote_addr(&self) -> (r: Result<String, ClientError>)
        ensures
            match r {
                Ok(s) => {
                    &&& host_text(self.host) matches Some(host)
                    &&& s@ == host + ":"@ + decimal(self.port as nat)
                    &&& names_port(s@, host, self.port)
                    &&& self.host matches Host::Ipv4(octets) ==> spells_octets(host, octets@)
                    &&& self.host matches Host::Domain(name) ==> valid_utf8(name@) ==> s@
                        == decode_utf8(name@) + ":"@ + decimal(self.port as nat)
                },
                Err(e) => host_text(self.host) is None && e is Ipv6,
            },
    {
        proof {
            law_only_ipv6_is_turned_down(self.host);
        }
        let host: String = match &self.host {
            Host::Domain(name) => lossy_text(name.as_slice()),
            Host::Ipv4(octets) => dotted_string(octets),
            Host::Ipv6(_) => {
                return Err(ClientError::Ipv6);
            },
        };
        Ok(host_and_port(host.as_str(), self.port))
    }
}

/// Addresses tell port numbers apart: the same host with another port is another address.
pub proof fn law_ports_are_told_apart(host: Seq<char>, p: u16, q: u16)
    requires
        host + ":"@ + decimal(p as nat) == host + ":"@ + decimal(q as nat),
    ensures
        p == q,
{
    let front = host + ":"@;
    let n = front.len() as int;
    assert((front + decimal(p as nat)).skip(n) =~= decimal(p as nat));
    assert((front + decimal(q as nat)).skip(n) =~= decimal(q as nat));
    law_decimal_reads_back(p as nat);
    law_decimal_reads_back(q as nat);
}

/// What follows the attempt to open a stream for a request.
#[derive(Debug)]
pub enum AfterOpen<E> {
    /// Tell the requester that the host and port it asked for are connected, then relay.
    Relay(SocksRequest),
    /// The multiplexer is dead: stop the client.
    StopClient(E),
}

/// Decides what follows the attempt to open a stream for a request.
pub fn after_open<E>(request: SocksRequest, opened: Result<(), E>) -> (r: AfterOpen<E>)
    ensures
        r == (match opened {
            Ok(_) => AfterOpen::Relay(request),
            Err(e) => AfterOpen::StopClient(e),
        }),
{
    match opened {
        Ok(_) => AfterOpen::Relay(request),
        Err(e) => AfterOpen::StopClient(e),
    }
}

/// What an exit answers to a client that introduces itself.
#[derive(Debug)]
pub enum ExitReply {
    /// The exit turns the client down.
    Reject(String),
    /// The exit answers the challenge of a shared secret.
    SharedSecretResponse,
    /// The exit's public key.
    X25519([u8; 32]),
}

/// The keys of a connection between client and exit.
#[derive(Clone, Copy, Debug, PartialEq, Eq)]
pub struct SessionKeys {
    pub read_key: [u8; 32],
    pub write_key: [u8; 32],
}

/// Whether the keys are those that belong to a shared secret: one for each direction.
pub open spec fn keys_for(keys: SessionKeys, shared: Seq<u8>) -> bool {
    &&& keys.read_key@ == blake3_key("e2c"@, shared)
    &&& keys.write_key@ == blake3_key("c2e"@, shared)
}

/// Derives the keys that belong to a shared secret.
pub fn session_keys(shared: &[u8; 32]) -> (keys: SessionKeys)
    ensures
        keys_for(keys, shared@),
{
    let read_key: [u8; 32] = derive_key("e2c", shared);
    let write_key: [u8; 32] = derive_key("c2e", shared);
    SessionKeys { read_key, write_key }
}

/// Each direction has a key of its own, derived from the shared secret: what the client reads is
/// encrypted for the way from the exit to the client, what it writes for the way back. Whoever
/// derives keys from the same secret gets the same ones.
pub proof fn law_keys_belong_to_directions(keys: SessionKeys, again: SessionKeys, shared: Seq<u8>)
    requires
        keys_for(keys, shared),
        keys_for(again, shared),
    ensures
        keys.read_key@ == blake3_key("e2c"@, shared),
        keys.write_key@ == blake3_key("c2e"@, shared),
        keys.read_key@ == again.read_key@,
        keys.write_key@ == again.write_key@,
{
}

/// What the errors say. That of a client that was turned down ends in the reason, in full.
pub proof fn law_errors_tell_the_reason(reason: String)
    ensures
        ({
            let text = ClientError::Rejected(reason).text();
            let front = "exit rejected our authentication attempt: "@;
            &&& text.len() == front.len() + reason@.len()
            &&& text.take(front.len() as int) == front
            &&& text.skip(front.len() as int) == reason@
        }),
        ClientError::Ipv6.text() == "IPv6 not supported"@,
        ClientError::UnexpectedSharedSecret.text()
            == "exit sent a shared-secret response to our full authentication request"@,
{
    let text = ClientError::Rejected(reason).text();
    let front = "exit rejected our authentication attempt: "@;
    assert(text.take(front.len() as int) =~= front);
    assert(text.skip(front.len() as int) =~= reason@);
}

/// A client that has introduced itself to an exit and waits for the answer.
pub struct ClientAuth {
    secret: EphemeralSecret,
}

impl ClientAuth {
    /// The client's one-time secret.
    pub closed spec fn secret(&self) -> EphemeralSecret {
        self.secret
    }

    /// Starts a full authentication: draws a one-time secret and gives the public key to
    /// introduce the client with.
    pub fn start() -> (r: (ClientAuth, [u8; 32]))
        ensures
            r.1@ == x25519_public(r.0.secret()),
    {
        let secret: EphemeralSecret = random_secret();
        let public: [u8; 32] = public_key(&secret);
        (ClientAuth { secret }, public)
    }

    /// Ends the authentication with the exit's answer. The keys are those that the exit derives
    /// from the client's public key.
    pub fn finish(self, reply: ExitReply) -> (r: Result<SessionKeys, ClientError>)
        ensures
            match (reply, r) {
                (ExitReply::Reject(reason), Err(ClientError::Rejected(why))) => why@ == reason@,
                (
                    ExitReply::SharedSecretResponse,
                    Err(ClientError::UnexpectedSharedSecret),
                ) => true,
                (ExitReply::X25519(their_public), Ok(keys)) => keys_for(
                    keys,
                    x25519_shared(self.secret(), their_public@),
                ),
                _ => false,
            },
            reply matches ExitReply::X25519(their_public) ==> r matches Ok(keys) ==> forall|
                exit: EphemeralSecret,
            |
                their_public@ == #[trigger] x25519_public(exit) ==> keys_for(
                    keys,
                    x25519_shared(exit, x25519_public(self.secret())),
                ),
    {
        match reply {
            ExitReply::Reject(reason) => Err(ClientError::Rejected(reason)),
            ExitReply::SharedSecretResponse => Err(ClientError::UnexpectedSharedSecret),
            ExitReply::X25519(their_public) => {
                let shared: [u8; 32] = shared_secret(self.secret, their_public);
                Ok(session_keys(&shared))
            },
        }
    }
}

} // verus!
