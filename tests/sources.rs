use protozoa::ciphers::TransformError;
use protozoa::megacloud::{self, generate_encryption_key, DecryptError};
use protozoa::pipeline::{run_pipeline, Step, StepFailed};
use protozoa::{animekai, megaup};

#[test]
fn test_decrypt() {
	let decrypted = animekai::decrypt("UVJNWkZQbWl0WnRfN0lVdUFXajFKYXE5enpCcTN6Nm9rcTc5UW1ta1JIeldoUnBjYkJFUmNHME9rSFBfVzZTSTY0VUpaZHFOcFo2dFVLV19lQ2lUWmVnVmwtWTNDS0kxeHlWcmxPbzV0UUo0ajVMeXJMclRyQTZiMURieHJBd1p5MmZOdl9KRGs0bzhWYVVyQ3VYeTZoeDc1T2ZKX2dUbzJOTE04a3JkTzJHSEtkZzVjWV9JR2xCblM4QjVYR1BkLThZSDY4cFloU0stWGM0ZElaNk5hRmN2QzBuRW9DQkU5WklISzN3b3dhSXVIOHVXWW5FamN2ZnNwZ3pFZG1INDN5TUg4VzdpNDV1UE5fQUptN2Z3YlYtdEZLbm83RmZ2SWtXNndmQ0JMZnJEamQ5NUFRamJvUTdySTBodlBJRzBocnJ5MnZ3aHAtLWFuSzd0ZUxmTDlMWkRwV0NuWlV2RlBLamw2UGdobk1iMGFDTkhzd0RFTk5va0J3bEN4YTFIMDM2Qm92RkN5UnBod19iaE1WZEZzQnJ2Mk9QcWlzTm9aZFFD").unwrap();
	println!("{}", decrypted);
}

#[test]
fn test_encrypt() {
	let encrypted = animekai::encrypt(r#"{"url":"https:\/\/megaup.cc\/e\/2MivLzL-WS2JcOLxE7xN6hfpCQ","skip":{"intro":[91,180],"outro":[1325,1414]}}"#);
	println!("{}", encrypted);
}

const JSON: &str = r#"{"url":"https:\/\/megaup.cc\/e\/2MivLzL-WS2JcOLxE7xN6hfpCQ","skip":{"intro":[91,180],"outro":[1325,1414]},"tracks":[{"file":"https://x.y/a b.vtt","label":"English é"}]}"#;

#[test]
fn animekai_round_trip_json() {
    let enc = animekai::encrypt(JSON);
    assert_ne!(enc, JSON);
    assert_eq!(animekai::decrypt(&enc).unwrap(), JSON);
}

#[test]
fn animekai_round_trip_edge_texts() {
    for p in ["", "a", "\u{e9}t\u{e9} \u{1F600}", "ccTwp_Hxokjv02gVx4if"] {
        assert_eq!(animekai::decrypt(&animekai::encrypt(p)).unwrap(), p);
    }
}

#[test]
fn megaup_round_trip_json() {
    let enc = megaup::encrypt(JSON);
    assert_ne!(enc, JSON);
    assert_eq!(megaup::decrypt(&enc).unwrap(), JSON);
}

#[test]
fn megaup_round_trip_edge_texts() {
    for p in ["", "z", "{\"sources\":[{\"file\":\"https://h/x.m3u8\"}]}", "\u{4e2d}\u{6587}"] {
        assert_eq!(megaup::decrypt(&megaup::encrypt(p)).unwrap(), p);
    }
}

#[test]
fn malformed_base64_fails_at_first_step() {
    let e = StepFailed { position: 0, error: TransformError::CodecError };
    assert_eq!(animekai::decrypt("not base64!"), Err(e));
    assert_eq!(megaup::decrypt("A"), Err(e));
}

#[test]
fn malformed_base64_fails_at_a_later_step() {
    // Valid base64 whose content is not base64: the second decode step fails.
    let outer = protozoa::codec::url_safe_base64("!!");
    assert_eq!(
        megaup::decrypt(&outer),
        Err(StepFailed { position: 1, error: TransformError::CodecError })
    );
    assert_eq!(
        animekai::decrypt(&outer).unwrap_err().error,
        TransformError::CodecError
    );
}

#[test]
fn pipeline_reports_failing_step() {
    let steps = vec![Step::Reverse, Step::StreamCipher(""), Step::Base64Encode];
    assert_eq!(
        run_pipeline(&steps, "abc"),
        Err(StepFailed { position: 1, error: TransformError::InvalidKey })
    );
    let steps = vec![Step::Base64Encode, Step::Reverse, Step::Reverse, Step::Base64Decode];
    assert_eq!(run_pipeline(&steps, "x\u{e9}").unwrap(), "x\u{e9}");
    assert_eq!(run_pipeline(&Vec::new(), "same").unwrap(), "same");
}

#[test]
fn pipeline_single_steps() {
    assert_eq!(run_pipeline(&vec![Step::Reverse], "abc").unwrap(), "cba");
    assert_eq!(run_pipeline(&vec![Step::Substitute("ab", "ba")], "abc").unwrap(), "bac");
    assert_eq!(run_pipeline(&vec![Step::PercentEncode], "a b").unwrap(), "a%20b");
    assert_eq!(run_pipeline(&vec![Step::PercentDecode], "a%20b").unwrap(), "a b");
}

const PAYLOAD: &str = "U2FsdGVkX18BAgMEBQYHCOOdzCtRFBcMgSXHAo5od6R7HIFYdw0vj2Gt8ZW53Sjs9dfQAZohKY8oMubY7ic+knupVrKs8174pXflLayW1k2CYUbwUskdUnMMI1+V6gRe";

#[test]
fn key_material_matches_reference_vectors() {
    let km = generate_encryption_key(&[1, 2, 3, 4, 5, 6, 7, 8], b"s3cr3tKey");
    assert_eq!(km.len(), 48);
    assert_eq!(
        &km[..32],
        &[94, 255, 232, 147, 82, 85, 54, 57, 223, 47, 178, 194, 0, 187, 104, 193, 244, 211, 100,
            77, 21, 14, 157, 211, 167, 157, 169, 136, 26, 88, 241, 131][..]
    );
    assert_eq!(
        &km[32..],
        &[255, 37, 18, 167, 59, 188, 38, 170, 214, 11, 107, 119, 173, 93, 117, 168][..]
    );
}

#[test]
fn block_decrypt_gives_json_array() {
    let text = megacloud::decrypt(PAYLOAD, "s3cr3tKey").unwrap();
    assert_eq!(text, r#"[{"file":"https://cdn.example.com/hls/master.m3u8","type":"hls"}]"#);
    assert!(text.starts_with('[') && text.ends_with(']'));
}

#[test]
fn block_decrypt_errors() {
    assert_eq!(megacloud::decrypt("@@not base64", "k"), Err(DecryptError::BadBase64));
    assert_eq!(megacloud::decrypt("U2FsdGVk", "k"), Err(DecryptError::Truncated));
    let short = "U2FsdGVkX18BAgMEBQYHCOOdzCtRFBcMgSXHAo5od6R7HIFYdw0vj2Gt8ZW53Sjs9dfQAZohKY8oMubY7ic+knupVrKs8174pXflLayW1k2CYUbwUskdUnMMI1+V6gQ=";
    assert_eq!(megacloud::decrypt(short, "s3cr3tKey"), Err(DecryptError::BadBlockSize));
    let bad = "U2FsdGVkX18BAgMEBQYHCOOdzCtRFBcMgSXHAo5od6R7HIFYdw0vj2Gt8ZW53Sjs9dfQAZohKY8oMubY7ic+knupVrKs8174pXflLayW1k2CYUbwUskdUnMMI1+V6gQL";
    assert_eq!(megacloud::decrypt(bad, "s3cr3tKey"), Err(DecryptError::BadPadding));
    // Exactly the header: no ciphertext blocks at all.
    assert_eq!(megacloud::decrypt("U2FsdGVkX18BAgMEBQYHCA==", "k"), Err(DecryptError::BadPadding));
}

#[test]
fn block_decrypt_wrong_secret_fails_or_differs() {
    match megacloud::decrypt(PAYLOAD, "other") {
        Ok(t) => assert_ne!(t, r#"[{"file":"https://cdn.example.com/hls/master.m3u8","type":"hls"}]"#),
        Err(e) => assert_eq!(e, DecryptError::BadPadding),
    }
}
