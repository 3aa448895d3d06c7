//! Identifiers: those that clients choose, and those that the daemon makes up.
use vstd::prelude::*;
use vstd::string::*;
use vstd::utf8::*;

use crate::error::{failure, Fault, SandboxError};
use crate::text::{alnum_prefix, byte_len, concat, has_char, is_ascii_alnum};

verus! {

pub const MAX_IDENTIFIER_BYTES: usize = 256;

/// Texts that a client may use as an identifier: not empty, not too long, on one line.
pub open spec fn is_identifier(value: Seq<char>) -> bool {
    &&& value.len() > 0
    &&& encode_utf8(value).len() <= MAX_IDENTIFIER_BYTES
    &&& !value.contains('\0')
    &&& !value.contains('\n')
    &&& !value.contains('\r')
}

pub open spec fn identifier_fault(label: Seq<char>, value: Seq<char>) -> Option<Fault> {
    if is_identifier(value) {
        None
    } else {
        Some(Fault::Protocol("invalid "@ + label))
    }
}

/// Refuses a text that cannot be an identifier; `label` says of what.
pub fn validate_identifier(label: &str, value: &str) -> (r: Result<(), SandboxError>)
    ensures
        failure(r) == identifier_fault(label@, value@),
{
    if value.is_empty() || byte_len(value) > MAX_IDENTIFIER_BYTES || has_char(value, '\0')
        || has_char(value, '\n') || has_char(value, '\r') {
        return Err(SandboxError::Protocol(concat("invalid ", label)));
    }
    Ok(())
}

/// Whether a hyphen stands at a place of a random identifier.
pub open spec fn is_hyphen_place(i: int) -> bool {
    i == 8 || i == 13 || i == 18 || i == 23
}

pub open spec fn is_lower_hex(c: char) -> bool {
    ('0' <= c && c <= '9') || ('a' <= c && c <= 'f')
}

/// The form of a random identifier: thirty-two lower-case hexadecimal digits in five groups, the
/// third of which begins with the version, and the fourth with the variant.
pub open spec fn is_random_identifier(id: Seq<char>) -> bool {
    &&& id.len() == 36
    &&& forall|i: int|
        0 <= i < 36 ==> if is_hyphen_place(i) {
            #[trigger] id[i] == '-'
        } else {
            is_lower_hex(id[i])
        }
    &&& id[14] == '4'
    &&& id[19] == '8' || id[19] == '9' || id[19] == 'a' || id[19] == 'b'
}

/// `uuid::Uuid::new_v4` and the text of what it returns. The digits are chance; their number, the
/// places of the hyphens, the version and the variant are not. It panics where the machine has no source of
/// chance.
#[verifier::external_body]
fn random_identifier() -> (r: String)
    ensures
        is_random_identifier(r@),
{
    uuid::Uuid::new_v4().to_string()
}

/// An identifier for a new sandbox.
pub fn new_sandbox_id() -> (r: String)
    ensures
        is_random_identifier(r@),
{
    random_identifier()
}

/// The digits of a random identifier in front of a place.
pub open spec fn digits_before(id: Seq<char>, at: int) -> Seq<char>
    decreases at,
{
    if at <= 0 {
        Seq::empty()
    } else if is_hyphen_place(at - 1) {
        digits_before(id, at - 1)
    } else {
        digits_before(id, at - 1).push(id[at - 1])
    }
}

/// How many hyphens stand in front of a place.
pub open spec fn hyphens_before(at: int) -> int {
    (if at > 8 {
        1int
    } else {
        0
    }) + (if at > 13 {
        1int
    } else {
        0
    }) + (if at > 18 {
        1int
    } else {
        0
    }) + (if at > 23 {
        1int
    } else {
        0
    })
}

proof fn lemma_digits(id: Seq<char>, at: int, limit: nat)
    requires
        is_random_identifier(id),
        0 <= at <= 36,
        limit >= 32,
    ensures
        alnum_prefix(id.take(at), limit) == digits_before(id, at),
        digits_before(id, at).len() == at - hyphens_before(at),
    decreases at,
{
    if at > 0 {
        lemma_digits(id, at - 1, limit);
        assert(id.take(at).drop_last() =~= id.take(at - 1));
        assert(id.take(at).last() == id[at - 1]);
        if !is_hyphen_place(at - 1) {
            assert(is_lower_hex(id[at - 1]));
            assert(is_ascii_alnum(id[at - 1]));
        } else {
            assert(!is_ascii_alnum('-'));
        }
    } else {
        assert(id.take(0) =~= Seq::<char>::empty());
    }
}

proof fn lemma_digits_tell_apart(a: Seq<char>, b: Seq<char>, at: int)
    requires
        is_random_identifier(a),
        is_random_identifier(b),
        0 <= at <= 36,
        digits_before(a, at) == digits_before(b, at),
    ensures
        a.take(at) == b.take(at),
    decreases at,
{
    if at > 0 {
        lemma_digits(a, at, 32);
        lemma_digits(b, at, 32);
        let x = digits_before(a, at);
        let y = digits_before(b, at);
        if is_hyphen_place(at - 1) {
            lemma_digits_tell_apart(a, b, at - 1);
            assert(a[at - 1] == '-' && b[at - 1] == '-');
        } else {
            assert(x.drop_last() =~= digits_before(a, at - 1));
            assert(y.drop_last() =~= digits_before(b, at - 1));
            lemma_digits_tell_apart(a, b, at - 1);
            assert(x.last() == a[at - 1] && y.last() == b[at - 1]);
        }
        assert(a.take(at) =~= a.take(at - 1).push(a[at - 1]));
        assert(b.take(at) =~= b.take(at - 1).push(b[at - 1]));
    } else {
        assert(a.take(0) =~= b.take(0));
    }
}

/// Sandboxes with different identifiers get different names for what is kept of them: taking
/// only the letters and digits of an identifier, thirty-two or more, loses nothing.
pub proof fn law_sandboxes_are_told_apart(a: Seq<char>, b: Seq<char>, limit: nat)
    requires
        is_random_identifier(a),
        is_random_identifier(b),
        limit >= 32,
        alnum_prefix(a, limit) == alnum_prefix(b, limit),
    ensures
        a == b,
{
    assert(a.take(36) =~= a);
    assert(b.take(36) =~= b);
    lemma_digits(a, 36, limit);
    lemma_digits(b, 36, limit);
    lemma_digits_tell_apart(a, b, 36);
}

/// A text is taken as an identifier exactly where it is not empty, has at most two hundred and
/// fifty-six bytes, and none of its characters is a zero or ends a line.
pub proof fn law_accepted_identifiers(label: Seq<char>, value: Seq<char>)
    ensures
        identifier_fault(label, value) is None <==> 0 < value.len() && encode_utf8(value).len()
            <= 256 && forall|i: int|
            0 <= i < value.len() ==> (#[trigger] value[i]) != '\0' && value[i] != '\n' && value[i]
                != '\r',
{
    if forall|i: int|
        0 <= i < value.len() ==> (#[trigger] value[i]) != '\0' && value[i] != '\n' && value[i]
            != '\r' {
        assert(!value.contains('\0'));
        assert(!value.contains('\n'));
        assert(!value.contains('\r'));
    } else {
        let i = choose|i: int|
            0 <= i < value.len() && !((#[trigger] value[i]) != '\0' && value[i] != '\n' && value[i]
                != '\r');
        assert(value.contains(value[i]));
    }
}

/// A random identifier has a hyphen behind each of its first four groups, and everything else in it
/// is a digit; the third group begins with the version, the fourth with the variant.
pub proof fn law_random_identifiers_have_their_form(id: Seq<char>, i: int)
    requires
        is_random_identifier(id),
    ensures
        id.len() == 36,
        id[8] == '-' && id[13] == '-' && id[18] == '-' && id[23] == '-',
        id[14] == '4',
        id[19] == '8' || id[19] == '9' || id[19] == 'a' || id[19] == 'b',
        0 <= i < 36 && i != 8 && i != 13 && i != 18 && i != 23 ==> '0' <= id[i] <= '9' || 'a'
            <= id[i] <= 'f',
{
}

/// The digits of a random identifier are those that hexadecimal numbers are written with.
pub proof fn law_hexadecimal_digits(c: char)
    ensures
        is_lower_hex(c) <==> 48 <= c as u32 <= 57 || 97 <= c as u32 <= 102,
{
}

} // verus!
