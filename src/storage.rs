//! Keys under which models are persisted, and the identity of a model.

use vstd::prelude::*;
use vstd::string::StringExecFns;
use std::collections::hash_map::DefaultHasher;
use std::hash::{BuildHasher, BuildHasherDefault};

verus! {

/// Prefix of the storage key of a model.
pub const MODEL_KEY_PREFIX: &'static str = "stepviz:model:";

/// Storage key of the list of known files.
pub const LS_INDEX_KEY: &'static str = "stepviz:index";

/// The storage key of model `id`.
pub fn model_key(id: &str) -> (r: String)
    ensures
        r@ == MODEL_KEY_PREFIX@ + id@,
{
    let mut key = String::from_str(MODEL_KEY_PREFIX);
    key.append(id);
    key
}

/// The hash of a text under std's default hasher, as created by
/// `DefaultHasher::new`, whose keys are fixed.
pub uninterp spec fn text_hash(s: Seq<char>) -> u64;

/// Relies on `BuildHasher::hash_one` over `BuildHasherDefault<DefaultHasher>`:
/// a fresh `DefaultHasher::new()` fed the text, then finished, so the result
/// depends on the text alone.
#[verifier::external_body]
fn hash_text(text: &str) -> (r: u64)
    ensures
        r == text_hash(text@),
{
    BuildHasherDefault::<DefaultHasher>::default().hash_one(text)
}

/// The lowercase hexadecimal digit of `d`, for `d < 16`.
pub open spec fn hex_char(d: nat) -> char {
    if d < 10 {
        (('0' as nat) + d) as char
    } else {
        (('a' as nat) + (d - 10)) as char
    }
}

/// The `width` lowest hexadecimal digits of `n`, most significant first.
pub open spec fn hex_digits(n: nat, width: nat) -> Seq<char>
    decreases width,
{
    if width == 0 {
        Seq::empty()
    } else {
        hex_digits(n / 16, (width - 1) as nat).push(hex_char(n % 16))
    }
}

/// Relies on std's `{:016x}` format: lowercase hexadecimal, zero-padded to
/// sixteen digits, which every `u64` fills exactly.
#[verifier::external_body]
fn hex16(n: u64) -> (r: String)
    ensures
        r@ == hex_digits(n as nat, 16),
{
    format!("{:016x}", n)
}

/// The identity of a model: the sixteen hexadecimal digits of its text's
/// hash.
pub fn hash_text_to_id(text: &str) -> (r: String)
    ensures
        r@ == hex_digits(text_hash(text@) as nat, 16),
        r@.len() == 16,
{
    let h = hash_text(text);
    let r = hex16(h);
    proof {
        lemma_hex_digits_len(h as nat, 16);
    }
    r
}

proof fn lemma_hex_digits_len(n: nat, width: nat)
    ensures
        hex_digits(n, width).len() == width,
    decreases width,
{
    if width > 0 {
        lemma_hex_digits_len(n / 16, (width - 1) as nat);
    }
}

} // verus!
