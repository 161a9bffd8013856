//! The AnimeKai obfuscation: a fixed encrypt pipeline and the decrypt
//! pipeline that undoes it.
use vstd::prelude::*;
use crate::ciphers::{
    lemma_rc4_involutive, lemma_rc4_latin1, lemma_reverse_involutive, lemma_reversed_latin1,
    lemma_substitute_permutation_round_trip, lemma_substituted_latin1, permutes, rc4_text,
    reversed, substituted,
};
use crate::codec::{
    is_latin1, lemma_base64_round_trip, lemma_percent_encoded_latin1, lemma_percent_round_trip,
    lemma_url_safe_encoded_latin1, percent_encoded_text, url_safe_encoded_text,
};
use crate::pipeline::{StepFailed, Step, lemma_run_end, lemma_run_step, run_pipeline, run_spec};

verus! {

/// The encrypt pipeline, step by step.
pub open spec fn encrypt_steps() -> Seq<Step> {
    seq![
        Step::PercentEncode,
        Step::StreamCipher("0DU8ksIVlFcia2"),
        Step::Base64Encode,
        Step::Reverse,
        Step::Substitute("1wctXeHqb2", "1tecHq2Xbw"),
        Step::Substitute("48KbrZx1ml", "Km8Zb4lxr1"),
        Step::StreamCipher("kOCJnByYmfI"),
        Step::Base64Encode,
        Step::Reverse,
        Step::Reverse,
        Step::StreamCipher("sXmH96C4vhRrgi8"),
        Step::Base64Encode,
        Step::Substitute("hTn79AMjduR5", "djn5uT7AMR9h"),
        Step::Base64Encode,
    ]
}

/// The decrypt pipeline, step by step.
pub open spec fn decrypt_steps() -> Seq<Step> {
    seq![
        Step::Base64Decode,
        Step::Substitute("djn5uT7AMR9h", "hTn79AMjduR5"),
        Step::Base64Decode,
        Step::StreamCipher("sXmH96C4vhRrgi8"),
        Step::Reverse,
        Step::Reverse,
        Step::Base64Decode,
        Step::StreamCipher("kOCJnByYmfI"),
        Step::Substitute("Km8Zb4lxr1", "48KbrZx1ml"),
        Step::Substitute("1tecHq2Xbw", "1wctXeHqb2"),
        Step::Reverse,
        Step::Base64Decode,
        Step::StreamCipher("0DU8ksIVlFcia2"),
        Step::PercentDecode,
    ]
}

fn encrypt_pipeline() -> (r: Vec<Step>)
    ensures
        r@ == encrypt_steps(),
{
    let r = vec![
        Step::PercentEncode,
        Step::StreamCipher("0DU8ksIVlFcia2"),
        Step::Base64Encode,
        Step::Reverse,
        Step::Substitute("1wctXeHqb2", "1tecHq2Xbw"),
        Step::Substitute("48KbrZx1ml", "Km8Zb4lxr1"),
        Step::StreamCipher("kOCJnByYmfI"),
        Step::Base64Encode,
        Step::Reverse,
        Step::Reverse,
        Step::StreamCipher("sXmH96C4vhRrgi8"),
        Step::Base64Encode,
        Step::Substitute("hTn79AMjduR5", "djn5uT7AMR9h"),
        Step::Base64Encode,
    ];
    assert(r@ =~= encrypt_steps());
    r
}

fn decrypt_pipeline() -> (r: Vec<Step>)
    ensures
        r@ == decrypt_steps(),
{
    let r = vec![
        Step::Base64Decode,
        Step::Substitute("djn5uT7AMR9h", "hTn79AMjduR5"),
        Step::Base64Decode,
        Step::StreamCipher("sXmH96C4vhRrgi8"),
        Step::Reverse,
        Step::Reverse,
        Step::Base64Decode,
        Step::StreamCipher("kOCJnByYmfI"),
        Step::Substitute("Km8Zb4lxr1", "48KbrZx1ml"),
        Step::Substitute("1tecHq2Xbw", "1wctXeHqb2"),
        Step::Reverse,
        Step::Base64Decode,
        Step::StreamCipher("0DU8ksIVlFcia2"),
        Step::PercentDecode,
    ];
    assert(r@ =~= decrypt_steps());
    r
}

/// The text that encrypting `p` gives.
pub open spec fn encrypted_text(p: Seq<char>) -> Seq<char> {
    let x1 = percent_encoded_text(p);
    let x2 = rc4_text("0DU8ksIVlFcia2"@, x1);
    let x3 = url_safe_encoded_text(x2);
    let x4 = reversed(x3);
    let x5 = substituted(x4, "1wctXeHqb2"@, "1tecHq2Xbw"@);
    let x6 = substituted(x5, "48KbrZx1ml"@, "Km8Zb4lxr1"@);
    let x7 = rc4_text("kOCJnByYmfI"@, x6);
    let x8 = url_safe_encoded_text(x7);
    let x9 = reversed(reversed(x8));
    let x10 = rc4_text("sXmH96C4vhRrgi8"@, x9);
    let x11 = url_safe_encoded_text(x10);
    let x12 = substituted(x11, "hTn79AMjduR5"@, "djn5uT7AMR9h"@);
    url_safe_encoded_text(x12)
}

proof fn lemma_tables()
    ensures
        "0DU8ksIVlFcia2"@.len() > 0,
        "kOCJnByYmfI"@.len() > 0,
        "sXmH96C4vhRrgi8"@.len() > 0,
        permutes("1wctXeHqb2"@, "1tecHq2Xbw"@, seq![0, 3, 5, 2, 6, 7, 9, 4, 8, 1]),
        permutes("48KbrZx1ml"@, "Km8Zb4lxr1"@, seq![2, 8, 1, 5, 3, 0, 9, 6, 4, 7]),
        permutes("hTn79AMjduR5"@, "djn5uT7AMR9h"@, seq![8, 7, 2, 11, 9, 1, 3, 5, 6, 10, 4, 0]),
        is_latin1("1tecHq2Xbw"@),
        is_latin1("Km8Zb4lxr1"@),
        is_latin1("djn5uT7AMR9h"@),
{
    reveal_strlit("0DU8ksIVlFcia2");
    reveal_strlit("kOCJnByYmfI");
    reveal_strlit("sXmH96C4vhRrgi8");
    reveal_strlit("1wctXeHqb2");
    reveal_strlit("1tecHq2Xbw");
    reveal_strlit("48KbrZx1ml");
    reveal_strlit("Km8Zb4lxr1");
    reveal_strlit("hTn79AMjduR5");
    reveal_strlit("djn5uT7AMR9h");
}

proof fn lemma_encrypt_run(p: Seq<char>)
    ensures
        run_spec(encrypt_steps(), p) == Ok::<Seq<char>, StepFailed>(encrypted_text(p)),
{
    lemma_tables();
    let e = encrypt_steps();
    let x1 = percent_encoded_text(p);
    let x2 = rc4_text("0DU8ksIVlFcia2"@, x1);
    let x3 = url_safe_encoded_text(x2);
    let x4 = reversed(x3);
    let x5 = substituted(x4, "1wctXeHqb2"@, "1tecHq2Xbw"@);
    let x6 = substituted(x5, "48KbrZx1ml"@, "Km8Zb4lxr1"@);
    let x7 = rc4_text("kOCJnByYmfI"@, x6);
    let x8 = url_safe_encoded_text(x7);
    let x9 = reversed(x8);
    let x10 = reversed(x9);
    let x11 = rc4_text("sXmH96C4vhRrgi8"@, x10);
    let x12 = url_safe_encoded_text(x11);
    let x13 = substituted(x12, "hTn79AMjduR5"@, "djn5uT7AMR9h"@);
    let x14 = url_safe_encoded_text(x13);
    lemma_run_step(e, 0, p, x1);
    lemma_run_step(e, 1, x1, x2);
    lemma_run_step(e, 2, x2, x3);
    lemma_run_step(e, 3, x3, x4);
    lemma_run_step(e, 4, x4, x5);
    lemma_run_step(e, 5, x5, x6);
    lemma_run_step(e, 6, x6, x7);
    lemma_run_step(e, 7, x7, x8);
    lemma_run_step(e, 8, x8, x9);
    lemma_run_step(e, 9, x9, x10);
    lemma_run_step(e, 10, x10, x11);
    lemma_run_step(e, 11, x11, x12);
    lemma_run_step(e, 12, x12, x13);
    lemma_run_step(e, 13, x13, x14);
    lemma_run_end(e, x14);
}

#[verifier::rlimit(60)]
proof fn lemma_decrypt_run(p: Seq<char>)
    ensures
        run_spec(decrypt_steps(), encrypted_text(p)) == Ok::<Seq<char>, StepFailed>(p),
{
    lemma_tables();
    let k1 = "0DU8ksIVlFcia2"@;
    let k2 = "kOCJnByYmfI"@;
    let k3 = "sXmH96C4vhRrgi8"@;
    let a1 = "1wctXeHqb2"@;
    let b1 = "1tecHq2Xbw"@;
    let a2 = "48KbrZx1ml"@;
    let b2 = "Km8Zb4lxr1"@;
    let a3 = "hTn79AMjduR5"@;
    let b3 = "djn5uT7AMR9h"@;
    let x1 = percent_encoded_text(p);
    let x2 = rc4_text(k1, x1);
    let x3 = url_safe_encoded_text(x2);
    let x4 = reversed(x3);
    let x5 = substituted(x4, a1, b1);
    let x6 = substituted(x5, a2, b2);
    let x7 = rc4_text(k2, x6);
    let x8 = url_safe_encoded_text(x7);
    let x9 = reversed(x8);
    let x10 = reversed(x9);
    let x11 = rc4_text(k3, x10);
    let x12 = url_safe_encoded_text(x11);
    let x13 = substituted(x12, a3, b3);
    let x14 = url_safe_encoded_text(x13);
    assert(x14 == encrypted_text(p));

    lemma_percent_encoded_latin1(p);
    lemma_rc4_latin1(k1, x1);
    lemma_url_safe_encoded_latin1(x2);
    lemma_reversed_latin1(x3);
    lemma_substituted_latin1(x4, a1, b1);
    lemma_substituted_latin1(x5, a2, b2);
    lemma_rc4_latin1(k2, x6);
    lemma_url_safe_encoded_latin1(x7);
    lemma_reverse_involutive(x8);
    lemma_rc4_latin1(k3, x10);
    lemma_url_safe_encoded_latin1(x11);
    lemma_substituted_latin1(x12, a3, b3);

    lemma_base64_round_trip(x13);
    lemma_substitute_permutation_round_trip(x12, a3, b3, seq![8, 7, 2, 11, 9, 1, 3, 5, 6, 10, 4, 0]);
    lemma_base64_round_trip(x11);
    lemma_rc4_involutive(k3, x10);
    lemma_base64_round_trip(x7);
    lemma_rc4_involutive(k2, x6);
    lemma_substitute_permutation_round_trip(x5, a2, b2, seq![2, 8, 1, 5, 3, 0, 9, 6, 4, 7]);
    lemma_substitute_permutation_round_trip(x4, a1, b1, seq![0, 3, 5, 2, 6, 7, 9, 4, 8, 1]);
    lemma_reverse_involutive(x3);
    lemma_base64_round_trip(x2);
    lemma_rc4_involutive(k1, x1);
    lemma_percent_round_trip(p);

    let d = decrypt_steps();
    lemma_run_step(d, 0, x14, x13);
    lemma_run_step(d, 1, x13, x12);
    lemma_run_step(d, 2, x12, x11);
    lemma_run_step(d, 3, x11, x10);
    lemma_run_step(d, 4, x10, x9);
    lemma_run_step(d, 5, x9, x8);
    lemma_run_step(d, 6, x8, x7);
    lemma_run_step(d, 7, x7, x6);
    lemma_run_step(d, 8, x6, x5);
    lemma_run_step(d, 9, x5, x4);
    lemma_run_step(d, 10, x4, x3);
    lemma_run_step(d, 11, x3, x2);
    lemma_run_step(d, 12, x2, x1);
    lemma_run_step(d, 13, x1, p);
    lemma_run_end(d, p);
}

/// The encrypt pipeline never fails, and decrypting its output gives the
/// plaintext back, for every plaintext.
pub proof fn lemma_round_trip(p: Seq<char>)
    ensures
        run_spec(encrypt_steps(), p) == Ok::<Seq<char>, StepFailed>(encrypted_text(p)),
        run_spec(decrypt_steps(), encrypted_text(p)) == Ok::<Seq<char>, StepFailed>(p),
{
    lemma_encrypt_run(p);
    lemma_decrypt_run(p);
}

/// Obfuscates `input` the way the site expects request tokens.
pub fn encrypt(input: &str) -> (r: String)
    ensures
        r@ == encrypted_text(input@),
        run_spec(decrypt_steps(), r@) == Ok::<Seq<char>, StepFailed>(input@),
{
    proof { lemma_round_trip(input@); }
    let steps = encrypt_pipeline();
    match run_pipeline(&steps, input) {
        Ok(t) => t,
        Err(_) => String::new(),
    }
}

/// Recovers the plaintext of a site response; fails on input that no
/// encryption produced, with the failing step's position.
pub fn decrypt(input: &str) -> (r: Result<String, StepFailed>)
    ensures
        match run_spec(decrypt_steps(), input@) {
            Ok(t) => r is Ok && r->Ok_0@ == t,
            Err(e) => r == Err::<String, StepFailed>(e),
        },
{
    let steps = decrypt_pipeline();
    run_pipeline(&steps, input)
}

} // verus!
