use vstd::prelude::*;

verus! {

/// A lowercase hexadecimal digit.
pub open spec fn is_lower_hex(c: char) -> bool {
    ('0' <= c && c <= '9') || ('a' <= c && c <= 'f')
}

/// The length of an anchor key.
pub const KEY_LEN: usize = 8;

/// Relies on `uuid::Uuid::new_v4` and its `Display`: a fresh random UUID in
/// hyphenated form, 36 characters whose first eight are lowercase hex digits
/// followed by a hyphen.
#[verifier::external_body]
fn random_uuid_text() -> (r: String)
    ensures
        r@.len() == 36,
        forall|i: int| 0 <= i < 8 ==> is_lower_hex(#[trigger] r@[i]),
        r@[8] == '-',
{
    uuid::Uuid::new_v4().to_string()
}

/// The key taken from a UUID's text: its first eight characters.
pub fn key_from_uuid_text(u: &str) -> (r: String)
    requires
        u@.len() >= KEY_LEN,
    ensures
        r@ == u@.subrange(0, KEY_LEN as int),
{
    String::from_str(u.substring_char(0, KEY_LEN))
}

/// A short key for a new anchor: the first eight hex digits of a random UUID.
/// Two calls may give the same key, though that is unlikely.
pub fn generate_key() -> (r: String)
    ensures
        r@.len() == KEY_LEN,
        forall|i: int| 0 <= i < r@.len() ==> is_lower_hex(#[trigger] r@[i]),
{
    let full = random_uuid_text();
    key_from_uuid_text(full.as_str())
}

} // verus!
