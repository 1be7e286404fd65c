use light_client::rpc::{invalid_address, Address, Client, Code};
use light_client::types::{
    bytes_equal, copy_vec, CommitSig, Digest, Duration, PublicKey, Signature, Time, Validator,
    ValidatorAddress, ValidatorSet, VerificationStatus,
};

fn validator(tag: u8, power: u64) -> Validator {
    Validator {
        address: ValidatorAddress { bytes: [tag; 20] },
        public_key: PublicKey { bytes: [tag; 32] },
        voting_power: power,
    }
}

#[test]
fn total_power_is_the_sum() {
    let members = vec![validator(1, 30), validator(2, 20), validator(3, 50)];
    let set = ValidatorSet::new(members.clone()).unwrap();
    assert_eq!(set.total_power(), 100);
    assert_eq!(set.len(), 3);
    assert_eq!(set.get(1), members[1]);
    assert_eq!(ValidatorSet::new(Vec::new()).unwrap().total_power(), 0);
}

#[test]
fn total_power_must_fit_in_64_bits() {
    let most = ValidatorSet::new(vec![validator(1, u64::MAX - 1), validator(2, 1)]).unwrap();
    assert_eq!(most.total_power(), u64::MAX);
    assert!(ValidatorSet::new(vec![validator(1, u64::MAX), validator(2, 1)]).is_none());
    assert!(ValidatorSet::new(vec![validator(1, u64::MAX), validator(2, 0), validator(3, 1)])
        .is_none());
}

#[test]
fn clone_keeps_members() {
    let set = ValidatorSet::new(vec![validator(1, 30), validator(2, 20)]).unwrap();
    assert_eq!(set.clone(), set);
}

#[test]
fn digests_differ_by_any_byte() {
    let one = Digest { bytes: [7; 32] };
    let mut other = one;
    assert!(one.same(&other));
    other.bytes[31] = 8;
    assert!(!one.same(&other));
    other.bytes[31] = 7;
    other.bytes[0] = 8;
    assert!(!one.same(&other));
    assert!(bytes_equal(&[1u8, 2, 3], &[1u8, 2, 3]));
    assert!(!bytes_equal(&[1u8, 2, 3], &[1u8, 2, 4]));
    assert!(bytes_equal::<0>(&[], &[]));
    assert_eq!(copy_vec(&vec![3u64, 1, 2]), vec![3, 1, 2]);
}

#[test]
fn time_arithmetic_does_not_overflow() {
    let late = Time { nanos: u64::MAX };
    let long = Duration { nanos: u64::MAX };
    assert!(late.plus_exceeds(long, Time { nanos: u64::MAX }));
    assert!(!late.plus_exceeds(Duration { nanos: 0 }, late));
    assert!(Time { nanos: 5 }.plus_exceeds(Duration { nanos: 3 }, Time { nanos: 7 }));
    assert!(!Time { nanos: 5 }.plus_exceeds(Duration { nanos: 3 }, Time { nanos: 8 }));
    assert!(Time { nanos: 8 }.within(Time { nanos: 5 }, Duration { nanos: 3 }));
    assert!(!Time { nanos: 9 }.within(Time { nanos: 5 }, Duration { nanos: 3 }));
    assert!(late.within(Time { nanos: 1 }, long));
    assert!(Time { nanos: 2 }.after(Time { nanos: 1 }));
    assert!(!Time { nanos: 2 }.after(Time { nanos: 2 }));
}

#[test]
fn commit_slots_name_their_signer() {
    let address = ValidatorAddress { bytes: [4; 20] };
    let signature = Signature { bytes: [4; 64] };
    let vote = CommitSig::ForBlock { validator: address, signature };
    let nil = CommitSig::Nil { validator: address, signature };
    assert_eq!(vote.signer_address(), Some(address));
    assert_eq!(vote.block_signer_address(), Some(address));
    assert_eq!(nil.signer_address(), Some(address));
    assert_eq!(nil.block_signer_address(), None);
    assert_eq!(CommitSig::Absent.signer_address(), None);
    assert_eq!(CommitSig::Absent.block_signer_address(), None);
}

#[test]
fn trust_rests_on_verified_blocks_and_the_seed() {
    assert!(VerificationStatus::Verified.is_trustworthy());
    assert!(VerificationStatus::Trusted.is_trustworthy());
    assert!(!VerificationStatus::Unverified.is_trustworthy());
    assert!(!VerificationStatus::Failed.is_trustworthy());
}

#[test]
fn endpoint_of_a_tcp_address() {
    let client = Client::new(Address::Tcp {
        peer_id: None,
        host: "127.0.0.1".to_string(),
        port: 26657,
    });
    assert_eq!(client.endpoint().unwrap(), "http://127.0.0.1:26657/");
    let client = Client::new(Address::Tcp { peer_id: None, host: "node".to_string(), port: 0 });
    assert_eq!(client.endpoint().unwrap(), "http://node:0/");
    let client = Client::new(Address::Tcp { peer_id: None, host: "node".to_string(), port: 9 });
    assert_eq!(client.endpoint().unwrap(), "http://node:9/");
    let client = Client::new(Address::Tcp { peer_id: None, host: "node".to_string(), port: 1000 });
    assert_eq!(client.endpoint().unwrap(), "http://node:1000/");
    let client = Client::new(Address::Tcp {
        peer_id: None,
        host: String::new(),
        port: u16::MAX,
    });
    assert_eq!(client.endpoint().unwrap(), "http://:65535/");
}

#[test]
fn unix_socket_has_no_endpoint() {
    let address = Address::Unix { path: "/tmp/node.sock".to_string() };
    let client = Client::new(address);
    assert_eq!(client.address(), &Address::Unix { path: "/tmp/node.sock".to_string() });
    let error = client.endpoint().unwrap_err();
    assert_eq!(error.code, Code::InvalidParams);
    assert_eq!(error.message, "invalid RPC address: Unix { path: \"/tmp/node.sock\" }");
}

#[test]
fn unix_socket_path_is_shown_escaped() {
    let client = Client::new(Address::Unix { path: "a\"b\\c\n".to_string() });
    let error = client.endpoint().unwrap_err();
    assert_eq!(
        error.message,
        "invalid RPC address: Unix { path: \"a\\\"b\\\\c\\n\" }"
    );
    assert_eq!(error.message.len(), 47);
}

#[test]
fn error_for_a_unix_socket_quotes_what_it_is_given() {
    let error = invalid_address("\"/tmp/tm.sock\"");
    assert_eq!(error.code, Code::InvalidParams);
    assert_eq!(error.message, "invalid RPC address: Unix { path: \"/tmp/tm.sock\" }");
    assert_eq!(error.message.len(), 50);
    assert_eq!(invalid_address("").message, "invalid RPC address: Unix { path:  }");
}
