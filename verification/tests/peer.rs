use flood_chat::options::{StartupError, StartupOptions};
use flood_chat::peer::{bytes_equal, PeerIdentity, Topic};

#[test]
fn identities_are_the_same_by_their_bytes() {
    let a = PeerIdentity::from_bytes(vec![1, 2, 3]);
    let b = PeerIdentity::from_bytes(vec![1, 2, 3]);
    let c = PeerIdentity::from_bytes(vec![1, 2, 4]);
    let d = PeerIdentity::from_bytes(vec![1, 2]);
    assert!(a.same_as(&b));
    assert!(!a.same_as(&c));
    assert!(!a.same_as(&d));
    assert_eq!(a.as_bytes(), &[1, 2, 3]);
    assert_eq!(a.clone(), a);
}

#[test]
fn bytes_are_equal_where_each_byte_is() {
    assert!(bytes_equal(&[], &[]));
    assert!(bytes_equal(&[1, 2], &[1, 2]));
    assert!(!bytes_equal(&[1, 2], &[1, 3]));
    assert!(!bytes_equal(&[1, 2], &[1, 2, 3]));
    assert!(!bytes_equal(&[0], &[]));
}

#[test]
fn an_identity_is_written_as_hex() {
    assert_eq!(PeerIdentity::from_bytes(vec![]).to_hex(), "");
    assert_eq!(PeerIdentity::from_bytes(vec![0x00, 0x0f, 0xa5, 0xff]).to_hex(), "000fa5ff");
    assert_eq!(
        PeerIdentity::from_bytes(vec![0x01, 0x23, 0x45, 0x67, 0x89, 0xab, 0xcd, 0xef]).to_hex(),
        "0123456789abcdef"
    );
}

#[test]
fn an_identity_is_written_the_same_every_time() {
    let id = PeerIdentity::from_bytes((0..=255).collect());
    assert_eq!(id.to_hex(), id.clone().to_hex());
    assert_eq!(id.to_hex().len(), 512);
}

#[test]
fn topics_are_the_same_by_their_name() {
    let chat = Topic::new("chat".to_string());
    assert!(chat.same_as(&Topic::new("chat".to_string())));
    assert!(!chat.same_as(&Topic::new("Chat".to_string())));
    assert_eq!(chat.name(), "chat");
    assert_eq!(chat.clone(), chat);
}

#[test]
fn the_alias_defaults_to_anon() {
    let options = StartupOptions::from_arguments(&[]);
    assert_eq!(options, Ok(StartupOptions { alias: "anon".to_string(), dial: None }));
}

#[test]
fn the_first_argument_is_the_alias() {
    let options = StartupOptions::from_arguments(&["alice".to_string()]);
    assert_eq!(options, Ok(StartupOptions { alias: "alice".to_string(), dial: None }));
}

#[test]
fn the_second_argument_is_the_peer_to_dial() {
    let args = vec!["bob".to_string(), "/ip4/10.0.0.1/tcp/4001".to_string(), "more".to_string()];
    let options = StartupOptions::from_arguments(&args);
    assert_eq!(
        options,
        Ok(StartupOptions {
            alias: "bob".to_string(),
            dial: Some("/ip4/10.0.0.1/tcp/4001".to_string())
        })
    );
}

#[test]
fn an_address_that_is_no_multiaddress_is_refused() {
    for bad in ["10.0.0.1:4001", "/", "/ip4/999.0.0.1/tcp/1", "/ip4/10.0.0.1/tcp", "/nothing/1"] {
        let args = vec!["bob".to_string(), bad.to_string()];
        assert_eq!(
            StartupOptions::from_arguments(&args),
            Err(StartupError::InvalidDialAddress),
            "{:?}",
            bad
        );
    }
}

#[test]
fn addresses_of_many_kinds_are_taken() {
    for good in ["/ip4/127.0.0.1/tcp/0", "/ip6/::1/tcp/4001", "/dns4/example.org/tcp/443/wss", ""] {
        let args = vec!["bob".to_string(), good.to_string()];
        let options = StartupOptions::from_arguments(&args).unwrap();
        assert_eq!(options.dial, Some(good.to_string()));
    }
}

#[test]
fn the_check_of_the_address_decides_alone() {
    let args = vec!["bob".to_string(), "anything".to_string()];
    assert_eq!(
        StartupOptions::from_checked_arguments(&args, true),
        Ok(StartupOptions { alias: "bob".to_string(), dial: Some("anything".to_string()) })
    );
    assert_eq!(
        StartupOptions::from_checked_arguments(&args, false),
        Err(StartupError::InvalidDialAddress)
    );
    // without an address to dial there is nothing to refuse
    assert_eq!(
        StartupOptions::from_checked_arguments(&args[..1], false),
        Ok(StartupOptions { alias: "bob".to_string(), dial: None })
    );
    assert_eq!(
        StartupOptions::from_checked_arguments(&[], false),
        Ok(StartupOptions { alias: "anon".to_string(), dial: None })
    );
}
