use picomux::client::{
    after_open, dotted_string, host_and_port, session_keys, AfterOpen, ClientAuth, ClientError,
    ExitReply, Host, SocksRequest,
};
use x25519_dalek::{EphemeralSecret, PublicKey};

fn addr(host: Host, port: u16) -> Result<String, ClientError> {
    SocksRequest { host, port }.remote_addr()
}

#[test]
fn addresses() {
    assert_eq!(
        addr(Host::Domain(b"example.com".to_vec()), 443).unwrap(),
        "example.com:443"
    );
    assert_eq!(addr(Host::Ipv4([192, 168, 0, 1]), 80).unwrap(), "192.168.0.1:80");
    assert_eq!(addr(Host::Ipv4([0, 10, 255, 100]), 0).unwrap(), "0.10.255.100:0");
    assert_eq!(
        addr(Host::Domain("b\u{fc}cher.example".as_bytes().to_vec()), 65535).unwrap(),
        "b\u{fc}cher.example:65535"
    );
}

#[test]
fn names_that_are_not_utf8_are_patched() {
    assert_eq!(
        addr(Host::Domain(vec![b'a', 0xff, b'b']), 1).unwrap(),
        "a\u{fffd}b:1"
    );
}

#[test]
fn ipv6_is_turned_down() {
    let e = addr(Host::Ipv6([0; 16]), 80).unwrap_err();
    assert!(matches!(e, ClientError::Ipv6));
    assert_eq!(e.message(), "IPv6 not supported");
}

#[test]
fn parts_of_an_address() {
    assert_eq!(dotted_string(&[1, 20, 255, 0]), "1.20.255.0");
    assert_eq!(host_and_port("::", 8080), ":::8080");
    assert_ne!(host_and_port("h", 80), host_and_port("h", 8));
}

#[test]
fn what_follows_opening() {
    let request = SocksRequest {
        host: Host::Ipv4([1, 2, 3, 4]),
        port: 5,
    };
    match after_open::<u8>(request, Ok(())) {
        AfterOpen::Relay(r) => {
            assert!(matches!(r.host, Host::Ipv4([1, 2, 3, 4])));
            assert_eq!(r.port, 5);
        }
        other => panic!("{:?}", other),
    }
    let request = SocksRequest {
        host: Host::Domain(b"x".to_vec()),
        port: 5,
    };
    assert!(matches!(
        after_open(request, Err("dead")),
        AfterOpen::StopClient("dead")
    ));
}

#[test]
fn keys_come_from_the_shared_secret() {
    let shared = [7u8; 32];
    let keys = session_keys(&shared);
    assert_eq!(keys.read_key, blake3::derive_key("e2c", &shared));
    assert_eq!(keys.write_key, blake3::derive_key("c2e", &shared));
    assert_ne!(keys.read_key, keys.write_key);
    assert_ne!(keys.read_key, shared);
}

#[test]
fn client_and_exit_agree_on_keys() {
    let (auth, client_public) = ClientAuth::start();
    let exit_secret = EphemeralSecret::random_from_rng(rand::thread_rng());
    let exit_public = PublicKey::from(&exit_secret).to_bytes();
    let keys = auth.finish(ExitReply::X25519(exit_public)).unwrap();
    let shared = exit_secret.diffie_hellman(&PublicKey::from(client_public)).to_bytes();
    assert_eq!(keys, session_keys(&shared));
}

#[test]
fn every_start_is_fresh() {
    let (_, first) = ClientAuth::start();
    let (_, second) = ClientAuth::start();
    assert_ne!(first, second);
}

#[test]
fn exits_that_refuse() {
    let (auth, _) = ClientAuth::start();
    let e = auth.finish(ExitReply::Reject("full".to_string())).unwrap_err();
    assert_eq!(e.message(), "exit rejected our authentication attempt: full");
    let (auth, _) = ClientAuth::start();
    let e = auth.finish(ExitReply::SharedSecretResponse).unwrap_err();
    assert_eq!(
        e.message(),
        "exit sent a shared-secret response to our full authentication request"
    );
}
