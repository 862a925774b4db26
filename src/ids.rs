//! Object and submission identities: 128-bit UUID values, their text, and the
//! storage keys and upload handles that carry them.

use vstd::arithmetic::power::pow;
use vstd::prelude::*;

verus! {

/// The lower-case hexadecimal digit for `d` (`d < 16`).
pub open spec fn hex_char(d: nat) -> char {
    seq!['0', '1', '2', '3', '4', '5', '6', '7', '8', '9', 'a', 'b', 'c', 'd', 'e', 'f'][d as int]
}

/// The `k`-th hexadecimal digit of `v`, counted from the most significant one.
pub open spec fn nibble(v: u128, k: int) -> nat {
    ((v as nat / (pow(16, (31 - k) as nat) as nat)) % 16) as nat
}

/// Which hexadecimal digit stands at position `p` of the hyphenated text.
pub open spec fn digit_index(p: int) -> int {
    if p < 8 {
        p
    } else if p < 13 {
        p - 1
    } else if p < 18 {
        p - 2
    } else if p < 23 {
        p - 3
    } else {
        p - 4
    }
}

/// The hyphenated lower-case text of a UUID: `8-4-4-4-12` hexadecimal digits,
/// most significant first.
pub open spec fn uuid_text(v: u128) -> Seq<char> {
    Seq::new(
        36,
        |p: int|
            if p == 8 || p == 13 || p == 18 || p == 23 {
                '-'
            } else {
                hex_char(nibble(v, digit_index(p)))
            },
    )
}

/// The UUID that a text denotes, if it is one in any of the accepted forms
/// (simple, hyphenated, braced, URN).
pub uninterp spec fn parsed_uuid(s: Seq<char>) -> Option<u128>;

/// Relies on `uuid::Uuid::parse_str` (with `as_u128`): the parse depends on the
/// text alone.
#[verifier::external_body]
fn parse_uuid(s: &str) -> (r: Option<u128>)
    ensures
        r == parsed_uuid(s@),
{
    match uuid::Uuid::parse_str(s) {
        Ok(u) => Some(u.as_u128()),
        Err(_) => None,
    }
}

/// Relies on `uuid::Uuid::from_u128` and its `Display`, which writes the
/// hyphenated lower-case form; `parse_str` accepts every form it writes.
#[verifier::external_body]
fn uuid_string(v: u128) -> (r: String)
    ensures
        r@ == uuid_text(v),
        parsed_uuid(r@) == Some(v),
{
    uuid::Uuid::from_u128(v).to_string()
}

/// Relies on `uuid::Uuid::new_v4`: a random version-4 UUID. Nothing is known
/// of the value.
#[verifier::external_body]
pub(crate) fn random_uuid() -> (r: u128) {
    uuid::Uuid::new_v4().as_u128()
}

/// Relies on `chrono::Utc::now` and `timestamp_micros`: the current time in
/// microseconds since the Unix epoch. Nothing is known of the value.
#[verifier::external_body]
pub(crate) fn now_micros() -> (r: i64) {
    chrono::Utc::now().timestamp_micros()
}

/// Parses a UUID text.
pub fn parse_id(s: &str) -> (r: Option<u128>)
    ensures
        r == parsed_uuid(s@),
{
    parse_uuid(s)
}

/// Writes a UUID in its hyphenated form.
pub fn id_text(v: u128) -> (r: String)
    ensures
        r@ == uuid_text(v),
        parsed_uuid(r@) == Some(v),
{
    uuid_string(v)
}

/// The key under which the content of object `id` is stored.
pub open spec fn storage_key_text(prefix: Seq<char>, id: u128) -> Seq<char> {
    prefix + seq!['/'] + uuid_text(id)
}

/// Builds the storage key `"{prefix}/{id}"` of an object.
pub fn storage_key(prefix: &str, id: u128) -> (r: String)
    ensures
        r@ == storage_key_text(prefix@, id),
{
    let mut out = String::from_str(prefix);
    proof {
        reveal_strlit("/");
    }
    out.append("/");
    let t = uuid_string(id);
    out.append(t.as_str());
    out
}

/// The part of an upload handle before its first `'+'`: the object id that the
/// handle was made from.
pub open spec fn handle_head(h: Seq<char>) -> Seq<char>
    decreases h.len(),
{
    if h.len() == 0 || h[0] == '+' {
        Seq::empty()
    } else {
        seq![h[0]] + handle_head(h.drop_first())
    }
}

/// The object that an upload handle `<object_id>+<proxy_id>` names, if its head
/// is a UUID.
pub open spec fn handle_object(h: Seq<char>) -> Option<u128> {
    parsed_uuid(handle_head(h))
}

/// Resolves the object id of an upload handle.
pub fn object_id_from_handle(handle: &str) -> (r: Option<u128>)
    ensures
        r == handle_object(handle@),
{
    let n = handle.unicode_len();
    let mut i: usize = 0;
    assert(handle@.subrange(0, 0) == Seq::<char>::empty());
    assert(handle@.subrange(0, n as int) == handle@);
    while i < n && handle.get_char(i) != '+'
        invariant
            i <= n,
            n == handle@.len(),
            handle_head(handle@) == handle@.subrange(0, i as int) + handle_head(
                handle@.subrange(i as int, n as int),
            ),
        decreases n - i,
    {
        let ghost rest = handle@.subrange(i as int, n as int);
        assert(rest.drop_first() == handle@.subrange(i + 1, n as int));
        assert(handle@.subrange(0, i + 1) == handle@.subrange(0, i as int) + seq![rest[0]]);
        i = i + 1;
    }
    let ghost rest = handle@.subrange(i as int, n as int);
    assert(handle_head(rest) == Seq::<char>::empty());
    assert(handle_head(handle@) == handle@.subrange(0, i as int));
    parse_uuid(handle.substring_char(0, i))
}

} // verus!
