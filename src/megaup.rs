//! The MegaUp obfuscation: the decrypt pipeline that the site's responses
//! need, and the encrypt pipeline that it undoes.
use vstd::prelude::*;
use crate::ciphers::{
    lemma_rc4_involutive, lemma_rc4_latin1, lemma_reverse_involutive, lemma_reversed_latin1,
    lemma_substitute_permutation_round_trip, lemma_substituted_latin1, permutes, rc4_text,
    reversed, substituted,
};
use crate::codec::{
    is_latin1, lemma_base64_round_trip, lemma_percent_encoded_latin1, lemma_percent_round_trip,
    lemma_url_safe_encoded_latin1, percent_encoded_text, url_safe_encoded_text,
};
use crate::pipeline::{StepFailed, Step, lemma_run_end, lemma_run_step, run_pipeline, run_spec};

verus! {

/// The decrypt pipeline, step by step.
pub open spec fn decrypt_steps() -> Seq<Step> {
    seq![
        Step::Base64Decode,
        Step::Base64Decode,
        Step::StreamCipher("E438hS1W9oRmB"),
        Step::Reverse,
        Step::Substitute("D5qdzkGANMQZEi", "Q5diEGMADkZzNq"),
        Step::Reverse,
        Step::Base64Decode,
        Step::StreamCipher("NZcfoMD7JpIrgQE"),
        Step::Substitute("kTr0pjKzBqZV", "kZpjzTV0KqBr"),
        Step::Base64Decode,
        Step::StreamCipher("Gay7bxj5B81TJFM"),
        Step::Substitute("zcUxoJTi3fgyS", "oSgyJUfizcTx3"),
        Step::Reverse,
        Step::PercentDecode,
    ]
}

/// The encrypt pipeline, step by step: the decrypt steps undone in reverse
/// order.
pub open spec fn encrypt_steps() -> Seq<Step> {
    seq![
        Step::PercentEncode,
        Step::Reverse,
        Step::Substitute("oSgyJUfizcTx3", "zcUxoJTi3fgyS"),
        Step::StreamCipher("Gay7bxj5B81TJFM"),
        Step::Base64Encode,
        Step::Substitute("kZpjzTV0KqBr", "kTr0pjKzBqZV"),
        Step::StreamCipher("NZcfoMD7JpIrgQE"),
        Step::Base64Encode,
        Step::Reverse,
        Step::Substitute("Q5diEGMADkZzNq", "D5qdzkGANMQZEi"),
        Step::Reverse,
        Step::StreamCipher("E438hS1W9oRmB"),
        Step::Base64Encode,
        Step::Base64Encode,
    ]
}

fn decrypt_pipeline() -> (r: Vec<Step>)
    ensures
        r@ == decrypt_steps(),
{
    let r = vec![
        Step::Base64Decode,
        Step::Base64Decode,
        Step::StreamCipher("E438hS1W9oRmB"),
        Step::Reverse,
        Step::Substitute("D5qdzkGANMQZEi", "Q5diEGMADkZzNq"),
        Step::Reverse,
        Step::Base64Decode,
        Step::StreamCipher("NZcfoMD7JpIrgQE"),
        Step::Substitute("kTr0pjKzBqZV", "kZpjzTV0KqBr"),
        Step::Base64Decode,
        Step::StreamCipher("Gay7bxj5B81TJFM"),
        Step::Substitute("zcUxoJTi3fgyS", "oSgyJUfizcTx3"),
        Step::Reverse,
        Step::PercentDecode,
    ];
    assert(r@ =~= decrypt_steps());
    r
}

fn encrypt_pipeline() -> (r: Vec<Step>)
    ensures
        r@ == encrypt_steps(),
{
    let r = vec![
        Step::PercentEncode,
        Step::Reverse,
        Step::Substitute("oSgyJUfizcTx3", "zcUxoJTi3fgyS"),
        Step::StreamCipher("Gay7bxj5B81TJFM"),
        Step::Base64Encode,
        Step::Substitute("kZpjzTV0KqBr", "kTr0pjKzBqZV"),
        Step::StreamCipher("NZcfoMD7JpIrgQE"),
        Step::Base64Encode,
        Step::Reverse,
        Step::Substitute("Q5diEGMADkZzNq", "D5qdzkGANMQZEi"),
        Step::Reverse,
        Step::StreamCipher("E438hS1W9oRmB"),
        Step::Base64Encode,
        Step::Base64Encode,
    ];
    assert(r@ =~= encrypt_steps());
    r
}

/// The text that encrypting `p` gives.
pub open spec fn encrypted_text(p: Seq<char>) -> Seq<char> {
    let y1 = percent_encoded_text(p);
    let y2 = reversed(y1);
    let y3 = substituted(y2, "oSgyJUfizcTx3"@, "zcUxoJTi3fgyS"@);
    let y4 = rc4_text("Gay7bxj5B81TJFM"@, y3);
    let y5 = url_safe_encoded_text(y4);
    let y6 = substituted(y5, "kZpjzTV0KqBr"@, "kTr0pjKzBqZV"@);
    let y7 = rc4_text("NZcfoMD7JpIrgQE"@, y6);
    let y8 = url_safe_encoded_text(y7);
    let y9 = reversed(y8);
    let y10 = substituted(y9, "Q5diEGMADkZzNq"@, "D5qdzkGANMQZEi"@);
    let y11 = reversed(y10);
    let y12 = rc4_text("E438hS1W9oRmB"@, y11);
    let y13 = url_safe_encoded_text(y12);
    url_safe_encoded_text(y13)
}

proof fn lemma_tables()
    ensures
        "E438hS1W9oRmB"@.len() > 0,
        "NZcfoMD7JpIrgQE"@.len() > 0,
        "Gay7bxj5B81TJFM"@.len() > 0,
        permutes("oSgyJUfizcTx3"@, "zcUxoJTi3fgyS"@, seq![8, 9, 5, 11, 0, 4, 10, 7, 12, 6, 2, 3, 1]),
        permutes("kZpjzTV0KqBr"@, "kTr0pjKzBqZV"@, seq![0, 5, 11, 7, 2, 3, 8, 4, 10, 9, 1, 6]),
        permutes("Q5diEGMADkZzNq"@, "D5qdzkGANMQZEi"@, seq![8, 1, 13, 2, 11, 9, 5, 7, 12, 6, 0, 10, 4, 3]),
        is_latin1("zcUxoJTi3fgyS"@),
        is_latin1("kTr0pjKzBqZV"@),
        is_latin1("D5qdzkGANMQZEi"@),
{
    reveal_strlit("E438hS1W9oRmB");
    reveal_strlit("NZcfoMD7JpIrgQE");
    reveal_strlit("Gay7bxj5B81TJFM");
    reveal_strlit("oSgyJUfizcTx3");
    reveal_strlit("zcUxoJTi3fgyS");
    reveal_strlit("kZpjzTV0KqBr");
    reveal_strlit("kTr0pjKzBqZV");
    reveal_strlit("Q5diEGMADkZzNq");
    reveal_strlit("D5qdzkGANMQZEi");
}

proof fn lemma_encrypt_run(p: Seq<char>)
    ensures
        run_spec(encrypt_steps(), p) == Ok::<Seq<char>, StepFailed>(encrypted_text(p)),
{
    lemma_tables();
    let e = encrypt_steps();
    let y1 = percent_encoded_text(p);
    let y2 = reversed(y1);
    let y3 = substituted(y2, "oSgyJUfizcTx3"@, "zcUxoJTi3fgyS"@);
    let y4 = rc4_text("Gay7bxj5B81TJFM"@, y3);
    let y5 = url_safe_encoded_text(y4);
    let y6 = substituted(y5, "kZpjzTV0KqBr"@, "kTr0pjKzBqZV"@);
    let y7 = rc4_text("NZcfoMD7JpIrgQE"@, y6);
    let y8 = url_safe_encoded_text(y7);
    let y9 = reversed(y8);
    let y10 = substituted(y9, "Q5diEGMADkZzNq"@, "D5qdzkGANMQZEi"@);
    let y11 = reversed(y10);
    let y12 = rc4_text("E438hS1W9oRmB"@, y11);
    let y13 = url_safe_encoded_text(y12);
    let y14 = url_safe_encoded_text(y13);
    lemma_run_step(e, 0, p, y1);
    lemma_run_step(e, 1, y1, y2);
    lemma_run_step(e, 2, y2, y3);
    lemma_run_step(e, 3, y3, y4);
    lemma_run_step(e, 4, y4, y5);
    lemma_run_step(e, 5, y5, y6);
    lemma_run_step(e, 6, y6, y7);
    lemma_run_step(e, 7, y7, y8);
    lemma_run_step(e, 8, y8, y9);
    lemma_run_step(e, 9, y9, y10);
    lemma_run_step(e, 10, y10, y11);
    lemma_run_step(e, 11, y11, y12);
    lemma_run_step(e, 12, y12, y13);
    lemma_run_step(e, 13, y13, y14);
    lemma_run_end(e, y14);
}

#[verifier::rlimit(60)]
proof fn lemma_decrypt_run(p: Seq<char>)
    ensures
        run_spec(decrypt_steps(), encrypted_text(p)) == Ok::<Seq<char>, StepFailed>(p),
{
    lemma_tables();
    let k1 = "E438hS1W9oRmB"@;
    let k2 = "NZcfoMD7JpIrgQE"@;
    let k3 = "Gay7bxj5B81TJFM"@;
    let a1 = "Q5diEGMADkZzNq"@;
    let b1 = "D5qdzkGANMQZEi"@;
    let a2 = "kZpjzTV0KqBr"@;
    let b2 = "kTr0pjKzBqZV"@;
    let a3 = "oSgyJUfizcTx3"@;
    let b3 = "zcUxoJTi3fgyS"@;
    let y1 = percent_encoded_text(p);
    let y2 = reversed(y1);
    let y3 = substituted(y2, a3, b3);
    let y4 = rc4_text(k3, y3);
    let y5 = url_safe_encoded_text(y4);
    let y6 = substituted(y5, a2, b2);
    let y7 = rc4_text(k2, y6);
    let y8 = url_safe_encoded_text(y7);
    let y9 = reversed(y8);
    let y10 = substituted(y9, a1, b1);
    let y11 = reversed(y10);
    let y12 = rc4_text(k1, y11);
    let y13 = url_safe_encoded_text(y12);
    let y14 = url_safe_encoded_text(y13);
    assert(y14 == encrypted_text(p));

    lemma_percent_encoded_latin1(p);
    lemma_reversed_latin1(y1);
    lemma_substituted_latin1(y2, a3, b3);
    lemma_rc4_latin1(k3, y3);
    lemma_url_safe_encoded_latin1(y4);
    lemma_substituted_latin1(y5, a2, b2);
    lemma_rc4_latin1(k2, y6);
    lemma_url_safe_encoded_latin1(y7);
    lemma_reversed_latin1(y8);
    lemma_substituted_latin1(y9, a1, b1);
    lemma_reversed_latin1(y10);
    lemma_rc4_latin1(k1, y11);
    lemma_url_safe_encoded_latin1(y12);

    lemma_base64_round_trip(y13);
    lemma_base64_round_trip(y12);
    lemma_rc4_involutive(k1, y11);
    lemma_reverse_involutive(y10);
    lemma_substitute_permutation_round_trip(y9, a1, b1, seq![8, 1, 13, 2, 11, 9, 5, 7, 12, 6, 0, 10, 4, 3]);
    lemma_reverse_involutive(y8);
    lemma_base64_round_trip(y7);
    lemma_rc4_involutive(k2, y6);
    lemma_substitute_permutation_round_trip(y5, a2, b2, seq![0, 5, 11, 7, 2, 3, 8, 4, 10, 9, 1, 6]);
    lemma_base64_round_trip(y4);
    lemma_rc4_involutive(k3, y3);
    lemma_substitute_permutation_round_trip(y2, a3, b3, seq![8, 9, 5, 11, 0, 4, 10, 7, 12, 6, 2, 3, 1]);
    lemma_reverse_involutive(y1);
    lemma_percent_round_trip(p);

    let d = decrypt_steps();
    lemma_run_step(d, 0, y14, y13);
    lemma_run_step(d, 1, y13, y12);
    lemma_run_step(d, 2, y12, y11);
    lemma_run_step(d, 3, y11, y10);
    lemma_run_step(d, 4, y10, y9);
    lemma_run_step(d, 5, y9, y8);
    lemma_run_step(d, 6, y8, y7);
    lemma_run_step(d, 7, y7, y6);
    lemma_run_step(d, 8, y6, y5);
    lemma_run_step(d, 9, y5, y4);
    lemma_run_step(d, 10, y4, y3);
    lemma_run_step(d, 11, y3, y2);
    lemma_run_step(d, 12, y2, y1);
    lemma_run_step(d, 13, y1, p);
    lemma_run_end(d, p);
}

/// The encrypt pipeline never fails, and decrypting its output gives the
/// plaintext back, for every plaintext.
pub proof fn lemma_round_trip(p: Seq<char>)
    ensures
        run_spec(encrypt_steps(), p) == Ok::<Seq<char>, StepFailed>(encrypted_text(p)),
        run_spec(decrypt_steps(), encrypted_text(p)) == Ok::<Seq<char>, StepFailed>(p),
{
    lemma_encrypt_run(p);
    lemma_decrypt_run(p);
}

/// Recovers the plaintext of a site response; fails on input that no
/// encryption produced, with the failing step's position.
pub fn decrypt(input: &str) -> (r: Result<String, StepFailed>)
    ensures
        match run_spec(decrypt_steps(), input@) {
            Ok(t) => r is Ok && r->Ok_0@ == t,
            Err(e) => r == Err::<String, StepFailed>(e),
        },
{
    let steps = decrypt_pipeline();
    run_pipeline(&steps, input)
}

/// Obfuscates `input` so that `decrypt` gives it back.
pub fn encrypt(input: &str) -> (r: String)
    ensures
        r@ == encrypted_text(input@),
        run_spec(decrypt_steps(), r@) == Ok::<Seq<char>, StepFailed>(input@),
{
    proof { lemma_round_trip(input@); }
    let steps = encrypt_pipeline();
    match run_pipeline(&steps, input) {
        Ok(t) => t,
        Err(_) => String::new(),
    }
}

} // verus!
