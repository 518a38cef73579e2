use hmpc_rs::config::{fallback_path, Config, PartyOrigin, RawConfig, Session, DEFAULT_PORT};
use hmpc_rs::errc::{ReceiveErrc, SendErrc, SendReceiveErrc};
use hmpc_rs::errors::{
    ClientError, ConnectionFault, ReceiveError, SendError, SendReceiveError, ServerError,
    SessionError, SignatureError, SizeMismatchError, WriteFault,
};
use hmpc_rs::planner::{check_size, collect_outcomes};

fn raw(session: Option<Session>) -> RawConfig {
    RawConfig {
        parties: vec![
            (0, PartyOrigin { name: "alpha".to_string(), port: Some(7001) }),
            (1, PartyOrigin { name: "beta".to_string(), port: None }),
        ],
        port: None,
        cert_dir: None,
        cert_keys_dir: None,
        sign_verify_dir: Some("keys/verify".to_string()),
        sign_keys_dir: None,
        session: session,
    }
}

#[test]
fn session_resolution() {
    assert_eq!(Session::Value(99).resolve(), Ok(99));
    assert_eq!(Session::Parse(b"12345".to_vec()).resolve(), Ok(12345));
    // an optional leading plus sign, as std's unsigned parse accepts
    assert_eq!(Session::Parse(b"+1".to_vec()).resolve(), Ok(1));
    assert_eq!(Session::Parse(b"+".to_vec()).resolve(), Err(SessionError::Parse));
    // the hexadecimal form, either marker case
    assert_eq!(Session::Parse(b"0x10".to_vec()).resolve(), Ok(16));
    assert_eq!(Session::Parse(b"0XfF".to_vec()).resolve(), Ok(255));
    assert_eq!(Session::Parse(b"+0x10".to_vec()).resolve(), Ok(16));
    assert_eq!(Session::Parse(b"0x".to_vec()).resolve(), Err(SessionError::Parse));
    assert_eq!(Session::Parse(b"0xg".to_vec()).resolve(), Err(SessionError::Parse));
    assert_eq!(
        Session::Parse(b"not a number".to_vec()).resolve(),
        Err(SessionError::Parse)
    );
    assert_eq!(Session::Parse(b"".to_vec()).resolve(), Err(SessionError::Parse));
    assert_eq!(Session::Parse(b"-1".to_vec()).resolve(), Err(SessionError::Parse));
    // one past the largest session id overflows, in either form
    assert_eq!(
        Session::Parse(b"340282366920938463463374607431768211456".to_vec()).resolve(),
        Err(SessionError::Parse)
    );
    assert_eq!(
        Session::Parse(b"340282366920938463463374607431768211455".to_vec()).resolve(),
        Ok(u128::MAX)
    );
    assert_eq!(
        Session::Parse(b"0xffffffffffffffffffffffffffffffff".to_vec()).resolve(),
        Ok(u128::MAX)
    );
    assert_eq!(
        Session::Parse(b"0x100000000000000000000000000000000".to_vec()).resolve(),
        Err(SessionError::Parse)
    );

    // a hashed session is the digest's first sixteen bytes, little-endian
    let digest = ring::digest::digest(&ring::digest::SHA256, b"seed");
    let mut first = [0u8; 16];
    first.copy_from_slice(&digest.as_ref()[..16]);
    let expected = u128::from_le_bytes(first);
    assert_eq!(Session::Text(b"seed".to_vec()).resolve(), Ok(expected));
}

#[test]
fn config_defaulting_and_precedence() {
    // without any session the configuration is rejected
    assert_eq!(
        Config::from_raw(raw(None), "base/.mpc", None).unwrap_err(),
        SessionError::NotFound
    );

    // the environment session takes precedence over the configured one
    let config = Config::from_raw(raw(Some(Session::Value(1))), "base/.mpc", Some(Session::Value(2)))
        .unwrap();
    assert_eq!(config.session, 2);

    // missing directories default under the base directory
    assert_eq!(config.cert_dir, "base/.mpc/cert");
    assert_eq!(config.cert_keys_dir, "base/.mpc/cert-keys");
    assert_eq!(config.sign_verify_dir, "keys/verify");
    assert_eq!(config.sign_keys_dir, "base/.mpc/sign-keys");
}

#[test]
fn ports_and_names() {
    let config = Config::from_raw(raw(Some(Session::Value(1))), ".mpc", None).unwrap();
    assert_eq!(config.port(0), 7001);
    assert_eq!(config.port(1), DEFAULT_PORT);
    assert_eq!(config.port(9), DEFAULT_PORT);
    assert_eq!(config.name(0), "alpha");
    assert_eq!(config.name(1), "beta");

    let mut with_default = raw(Some(Session::Value(1)));
    with_default.port = Some(6000);
    let config = Config::from_raw(with_default, ".mpc", None).unwrap();
    assert_eq!(config.port(1), 6000);
}

#[test]
fn key_material_file_names() {
    let config = Config::from_raw(raw(Some(Session::Value(1))), ".mpc", None).unwrap();
    assert_eq!(config.cert_filename(0), ".mpc/cert/0.x509.cert.der");
    assert_eq!(config.cert_key_filename(12), ".mpc/cert-keys/12.cert-private.key.der");
    assert_eq!(
        config.verification_key_filename(345),
        "keys/verify/345.ed25519-public.key.bin"
    );
    assert_eq!(
        config.signing_key_filename(65535),
        ".mpc/sign-keys/65535.ed25519-private.key.der"
    );
    assert_eq!(fallback_path(), "mpc.yaml");
}

#[test]
fn size_check() {
    assert_eq!(check_size(5, 5), Ok(()));
    assert_eq!(check_size(4, 5), Err(SizeMismatchError(4, 5)));
}

#[test]
fn outcome_collection() {
    let send_failed = SendReceiveError::Send(SendError::Client(ClientError::Write(
        WriteFault::Stopped,
    )));
    let receive_failed = SendReceiveError::Receive(ReceiveError::Server(
        ServerError::VersionMismatch,
    ));
    assert_eq!(collect_outcomes(&vec![]), Ok(()));
    assert_eq!(collect_outcomes(&vec![Ok(()), Ok(())]), Ok(()));
    // the first error is retained past later successes
    assert_eq!(
        collect_outcomes(&vec![Ok(()), Err(send_failed), Ok(())]),
        Err(send_failed)
    );
    // a second error collapses the call
    assert_eq!(
        collect_outcomes(&vec![Err(send_failed), Err(receive_failed)]),
        Err(SendReceiveError::Multiple)
    );
}

#[test]
fn error_code_flattening() {
    assert_eq!(
        SendErrc::from_send_error(SendError::Client(ClientError::Connection(
            ConnectionFault::TimedOut
        ))),
        SendErrc::ConnectionTimedOut
    );
    assert_eq!(
        SendErrc::from_send_error(SendError::Client(ClientError::Write(
            WriteFault::ConnectionLost(ConnectionFault::Reset)
        ))),
        SendErrc::ConnectionReset
    );
    assert_eq!(
        ReceiveErrc::from_receive_error(ReceiveError::Server(ServerError::Signature(
            SignatureError::UnknownSender
        ))),
        ReceiveErrc::UnknownSender
    );
    assert_eq!(
        SendReceiveErrc::from_send_receive_error(SendReceiveError::Multiple),
        SendReceiveErrc::MultipleErrors
    );
    assert_eq!(
        SendReceiveErrc::from_receive_error(ReceiveError::Server(ServerError::SessionMismatch)),
        SendReceiveErrc::SessionMismatch
    );
}
