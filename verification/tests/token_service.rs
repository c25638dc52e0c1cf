use darpi_runtime::container::{make_container, ContainerBuilder};
use darpi_runtime::token::{Algorithm, AuthError, TokenConfig};
use darpi_runtime::Role;

fn cfg_with(secret: &[u8]) -> TokenConfig {
    TokenConfig { secret: secret.to_vec(), algorithm: Algorithm::HS256 }
}

#[test]
fn issue_then_verify_returns_claims() {
    let cfg = cfg_with(b"my secret");
    let tok = cfg.issue(&b"uid".to_vec(), Role::Admin, 100, 1000);
    let claims = cfg.verify(&tok.bytes, 1050).expect("fresh token must verify");
    assert_eq!(claims.sub, b"uid".to_vec());
    assert_eq!(claims.role, Role::Admin);
    assert_eq!(claims.exp, 1100);
}

#[test]
fn verify_expiry_boundary() {
    // ttl = 100 issued at 1000: valid strictly before 1100, expired from 1100 on.
    let cfg = cfg_with(b"my secret");
    let tok = cfg.issue(&b"uid".to_vec(), Role::Admin, 100, 1000);
    assert!(cfg.verify(&tok.bytes, 1099).is_ok());
    assert!(matches!(cfg.verify(&tok.bytes, 1100), Err(AuthError::Expired)));
    assert!(matches!(cfg.verify(&tok.bytes, 2000), Err(AuthError::Expired)));
}

#[test]
fn verify_rejects_other_secret() {
    let cfg = cfg_with(b"my secret");
    let other = cfg_with(b"another secret");
    let tok = cfg.issue(&b"uid".to_vec(), Role::Admin, 100, 1000);
    assert!(matches!(other.verify(&tok.bytes, 1000), Err(AuthError::InvalidSignature)));
}

#[test]
fn verify_rejects_tampered_signature() {
    let cfg = cfg_with(b"my secret");
    let tok = cfg.issue(&b"uid".to_vec(), Role::Admin, 100, 1000);
    let mut bytes = tok.bytes.clone();
    let last = bytes.len() - 1;
    bytes[last] ^= 0x01;
    assert!(matches!(cfg.verify(&bytes, 1000), Err(AuthError::InvalidSignature)));
}

#[test]
fn verify_rejects_tampered_role() {
    // flipping the role byte invalidates the signature
    let cfg = cfg_with(b"my secret");
    let tok = cfg.issue(&b"uid".to_vec(), Role::User, 100, 1000);
    let mut bytes = tok.bytes.clone();
    bytes[4] = 1; // role byte sits after the 1-byte length and 3-byte subject
    assert!(matches!(cfg.verify(&bytes, 1000), Err(AuthError::InvalidSignature)));
}

#[test]
fn verify_rejects_malformed_token() {
    let cfg = cfg_with(b"my secret");
    assert!(matches!(cfg.verify(&vec![], 0), Err(AuthError::Malformed)));
    assert!(matches!(cfg.verify(&vec![3, 117, 105], 0), Err(AuthError::Malformed)));
    // declared subject length longer than the token
    assert!(matches!(cfg.verify(&vec![200, 0, 0, 0], 0), Err(AuthError::Malformed)));
}

#[test]
fn user_role_round_trips() {
    let cfg = cfg_with(b"my secret");
    let tok = cfg.issue(&b"someone".to_vec(), Role::User, 50, 7);
    let claims = cfg.verify(&tok.bytes, 7).expect("fresh token must verify");
    assert_eq!(claims.role, Role::User);
    assert_eq!(claims.exp, 57);
}

#[test]
fn two_instants_give_distinct_tokens_that_both_verify() {
    // same subject, role and ttl at two instants: different bytes, each
    // valid against its own expiry.
    let cfg = cfg_with(b"my secret");
    let t1 = cfg.issue(&b"uid".to_vec(), Role::Admin, 100, 1000);
    let t2 = cfg.issue(&b"uid".to_vec(), Role::Admin, 100, 1001);
    assert_ne!(t1.bytes, t2.bytes);
    let c1 = cfg.verify(&t1.bytes, 1099).expect("first token valid before its expiry");
    let c2 = cfg.verify(&t2.bytes, 1100).expect("second token valid before its expiry");
    assert_eq!(c1.exp, 1100);
    assert_eq!(c2.exp, 1101);
    assert!(matches!(cfg.verify(&t1.bytes, 1100), Err(AuthError::Expired)));
    assert!(matches!(cfg.verify(&t2.bytes, 1101), Err(AuthError::Expired)));
}

#[test]
fn builder_fails_fast_on_missing_parameters() {
    assert!(ContainerBuilder::new().build().is_err());
    assert!(ContainerBuilder::new().with_secret(b"s".to_vec()).build().is_err());
    assert!(
        ContainerBuilder::new().with_algorithm(Algorithm::HS256).build().is_err()
    );
    let c = ContainerBuilder::new()
        .with_secret(b"s".to_vec())
        .with_algorithm(Algorithm::HS256)
        .build()
        .expect("fully wired container must build");
    assert_eq!(c.token_cfg.secret, b"s".to_vec());
}

#[test]
fn process_container_is_wired() {
    let c = make_container();
    assert_eq!(c.token_cfg.secret, b"my secret".to_vec());
    assert_eq!(c.token_cfg.algorithm, Algorithm::HS256);
    // the resolved capability is the registered instance
    let tc = c.token_creator();
    assert_eq!(tc.secret, b"my secret".to_vec());
}
