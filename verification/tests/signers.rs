use sp_core::crypto::{Pair, SecretStringError};
use sp_core::sr25519;
use xcm_teleport::error::SignerError;
use xcm_teleport::signer::{classify_key, signing_notification, ExtrinsicOpts};
use xcm_teleport::submission::{step, Action, Failure, Notification, Outcome, Stage};

fn opts(suri: &str, password: Option<&str>) -> ExtrinsicOpts {
    ExtrinsicOpts {
        url: "ws://localhost:9944".to_string(),
        suri: suri.to_string(),
        password: password.map(|p| p.to_string()),
    }
}

fn public_key(found: Result<sr25519::Pair, SignerError>) -> [u8; 32] {
    match found {
        Ok(pair) => pair.public().0,
        Err(_) => panic!("the secret is good"),
    }
}

fn hex(bytes: &[u8]) -> String {
    let mut out = String::new();
    for b in bytes {
        out.push_str(&format!("{:02x}", b));
    }
    out
}

#[test]
fn signer_of_a_development_account() {
    let key = public_key(opts("//Alice", None).signer());
    assert_eq!(hex(&key), "d43593c715fdd31c61141abd04a99fd6822c8558854ccde39a5684e7a56da27d");
    let key = public_key(opts("//Bob", None).signer());
    assert_eq!(hex(&key), "8eaf04151687736326c9fea17e25fc5287613693c912909cb226aa4794f26a48");
}

#[test]
fn signer_of_a_raw_seed() {
    let seed = "0xe5be9a5092b81bca64be81d212e7f2f9eba183bb7a90954f7b76361f6edb5c0a";
    let theirs = sr25519::Pair::from_string(seed, None).expect("the seed is good").public().0;
    assert_eq!(public_key(opts(seed, None).signer()), theirs);
}

#[test]
fn signer_uses_the_password() {
    let phrase = "bottom drive obey lake curtain smoke basket hold race lonely fit walk";
    let plain = public_key(opts(phrase, None).signer());
    let locked = public_key(opts(phrase, Some("hunter2")).signer());
    assert_ne!(plain, locked);
    let inline = public_key(opts(&format!("{}///hunter2", phrase), None).signer());
    assert_eq!(locked, inline);
    let theirs = sr25519::Pair::from_string(phrase, Some("hunter2"))
        .expect("the phrase is good")
        .public()
        .0;
    assert_eq!(locked, theirs);
}

#[test]
fn signer_refuses_a_bad_secret() {
    for suri in ["not a secret", "0x1234", "bottom drive obey", "//Alice/", "’"] {
        match opts(suri, None).signer() {
            Ok(_) => panic!("{:?} is no secret", suri),
            Err(e) => {
                assert_eq!(e, SignerError::SecretString);
                assert_eq!(e.message(), "Secret string error");
            }
        }
    }
}

#[test]
fn classify_key_keeps_the_pair_and_folds_the_errors() {
    let alice = sr25519::Pair::from_string("//Alice", None).expect("the secret is good");
    let key = alice.public().0;
    assert_eq!(public_key(classify_key(Ok(alice))), key);
    for e in [
        SecretStringError::InvalidPhrase,
        SecretStringError::InvalidPassword,
        SecretStringError::InvalidSeed,
        SecretStringError::InvalidSeedLength,
        SecretStringError::InvalidPath,
    ] {
        assert_eq!(classify_key(Err(e)).err(), Some(SignerError::SecretString));
    }
}

#[test]
fn a_bad_secret_ends_the_submission_before_the_network() {
    let found = opts("not a secret", None).signer();
    let note = signing_notification(&found);
    assert_eq!(note, Notification::SigningFailed("Secret string error".to_string()));
    let (stage, action) = step(Stage::Composed, note);
    assert_eq!(
        stage,
        Stage::Done(Outcome::Failed(Failure::Signing("Secret string error".to_string())))
    );
    assert_eq!(action, Action::Stop);
}

#[test]
fn a_good_secret_lets_the_submission_go_on() {
    let found = opts("//Alice", None).signer();
    let note = signing_notification(&found);
    assert_eq!(note, Notification::SigningSucceeded);
    assert_eq!(step(Stage::Composed, note), (Stage::Signed, Action::Submit));
}
