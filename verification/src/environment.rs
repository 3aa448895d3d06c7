//! Environment variables: which names a policy may list and which values are passed on.
use vstd::prelude::*;
use vstd::utf8::*;

use crate::error::{
    failure, first_fault, lemma_all_passed, lemma_first_fault_at, lemma_no_fault, Fault,
    SandboxError,
};
use crate::string_map::StringMap;
use crate::text::{byte_len, chars_of, concat3, has_char, has_prefix, has_suffix, same_text, texts};

verus! {

pub const MAX_ENV_KEYS: usize = 128;

pub const MAX_ENV_KEY_BYTES: usize = 128;

pub const MAX_ENV_VALUE_BYTES: usize = 64 * 1024;

pub open spec fn is_key_char(c: char) -> bool {
    ('A' <= c && c <= 'Z') || ('0' <= c && c <= '9') || c == '_'
}

/// Names that carry credentials or change how programs are loaded.
pub open spec fn is_listed_name(name: Seq<char>) -> bool {
    ||| name == "ANTHROPIC_API_KEY"@
    ||| name == "OPENAI_API_KEY"@
    ||| name == "GOOGLE_API_KEY"@
    ||| name == "GITHUB_TOKEN"@
    ||| name == "GH_TOKEN"@
    ||| name == "NPM_TOKEN"@
    ||| name == "NODE_AUTH_TOKEN"@
    ||| name == "AWS_ACCESS_KEY_ID"@
    ||| name == "AWS_SECRET_ACCESS_KEY"@
    ||| name == "AWS_SESSION_TOKEN"@
    ||| name == "GOOGLE_APPLICATION_CREDENTIALS"@
    ||| name == "DOCKER_AUTH_CONFIG"@
    ||| name == "DATABASE_URL"@
    ||| name == "BASH_ENV"@
    ||| name == "ENV"@
    ||| name == "LD_PRELOAD"@
    ||| name == "LD_LIBRARY_PATH"@
}

/// Whether the name is the word, or ends with the word behind an underscore.
pub open spec fn names_a(name: Seq<char>, word: Seq<char>, tail: Seq<char>) -> bool {
    name == word || tail.is_suffix_of(name)
}

/// Names that must not reach a sandboxed process.
pub open spec fn is_sensitive(name: Seq<char>) -> bool {
    ||| is_listed_name(name)
    ||| "DYLD_"@.is_prefix_of(name)
    ||| names_a(name, "KEY"@, "_KEY"@)
    ||| names_a(name, "TOKEN"@, "_TOKEN"@)
    ||| names_a(name, "SECRET"@, "_SECRET"@)
    ||| names_a(name, "PASSWORD"@, "_PASSWORD"@)
    ||| names_a(name, "PASSWD"@, "_PASSWD"@)
    ||| names_a(name, "PRIVATE_KEY"@, "_PRIVATE_KEY"@)
}

/// Names that a policy may list.
pub open spec fn is_allowed_name(name: Seq<char>) -> bool {
    &&& name.len() > 0
    &&& encode_utf8(name).len() <= MAX_ENV_KEY_BYTES
    &&& forall|i: int| 0 <= i < name.len() ==> is_key_char(#[trigger] name[i])
    &&& !is_sensitive(name)
}

/// Values that are passed on.
pub open spec fn is_allowed_value(value: Seq<char>) -> bool {
    encode_utf8(value).len() <= MAX_ENV_VALUE_BYTES && !value.contains('\0')
}

pub open spec fn name_fault(name: Seq<char>) -> Option<Fault> {
    if is_allowed_name(name) {
        None
    } else {
        Some(Fault::InvalidPolicy("environment variable "@ + name + " is invalid or sensitive"@))
    }
}

/// Why a list of names is refused: it is too long, or the first name that is not allowed.
pub open spec fn names_fault(names: Seq<String>) -> Option<Fault> {
    if names.len() > MAX_ENV_KEYS {
        Some(Fault::InvalidPolicy("environment key list exceeds 128 entries"@))
    } else {
        first_fault(names.map_values(|n: String| name_fault(n@)))
    }
}

/// The failure for a value that is not passed on.
pub open spec fn bad_value(name: Seq<char>) -> Fault {
    Fault::InvalidPolicy("environment variable "@ + name + " is too large or contains NUL"@)
}

pub open spec fn value_fault(name: Seq<char>, value: Seq<char>) -> Option<Fault> {
    if is_allowed_value(value) {
        None
    } else {
        Some(bad_value(name))
    }
}

fn names_a_word(name: &str, word: &str, tail: &str) -> (r: bool)
    ensures
        r == names_a(name@, word@, tail@),
{
    same_text(name, word) || has_suffix(name, tail)
}

fn listed_name(name: &str) -> (r: bool)
    ensures
        r == is_listed_name(name@),
{
    same_text(name, "ANTHROPIC_API_KEY") || same_text(name, "OPENAI_API_KEY") || same_text(
        name,
        "GOOGLE_API_KEY",
    ) || same_text(name, "GITHUB_TOKEN") || same_text(name, "GH_TOKEN") || same_text(
        name,
        "NPM_TOKEN",
    ) || same_text(name, "NODE_AUTH_TOKEN") || same_text(name, "AWS_ACCESS_KEY_ID") || same_text(
        name,
        "AWS_SECRET_ACCESS_KEY",
    ) || same_text(name, "AWS_SESSION_TOKEN") || same_text(name, "GOOGLE_APPLICATION_CREDENTIALS")
        || same_text(name, "DOCKER_AUTH_CONFIG") || same_text(name, "DATABASE_URL") || same_text(
        name,
        "BASH_ENV",
    ) || same_text(name, "ENV") || same_text(name, "LD_PRELOAD") || same_text(
        name,
        "LD_LIBRARY_PATH",
    )
}

/// Whether the name must not reach a sandboxed process.
pub fn sensitive_environment_name(name: &str) -> (r: bool)
    ensures
        r == is_sensitive(name@),
{
    listed_name(name) || has_prefix(name, "DYLD_") || names_a_word(name, "KEY", "_KEY")
        || names_a_word(name, "TOKEN", "_TOKEN") || names_a_word(name, "SECRET", "_SECRET")
        || names_a_word(name, "PASSWORD", "_PASSWORD") || names_a_word(name, "PASSWD", "_PASSWD")
        || names_a_word(name, "PRIVATE_KEY", "_PRIVATE_KEY")
}

fn allowed_name(name: &str) -> (r: bool)
    ensures
        r == is_allowed_name(name@),
{
    let chars = chars_of(name);
    if chars.len() == 0 || byte_len(name) > MAX_ENV_KEY_BYTES {
        return false;
    }
    let mut i: usize = 0;
    while i < chars.len()
        invariant
            i <= chars@.len(),
            chars@ == name@,
            forall|j: int| 0 <= j < i ==> is_key_char(#[trigger] chars@[j]),
        decreases chars@.len() - i,
    {
        let c = chars[i];
        if !(('A' <= c && c <= 'Z') || ('0' <= c && c <= '9') || c == '_') {
            assert(!is_key_char(name@[i as int]));
            return false;
        }
        i = i + 1;
    }
    !sensitive_environment_name(name)
}

/// The set of names in a list, if every one of them is allowed.
pub fn validate_environment_keys(names: &Vec<String>) -> (r: Result<StringMap<()>, SandboxError>)
    ensures
        failure(r) == names_fault(names@),
        r matches Ok(set) ==> forall|key: Seq<char>| #[trigger]
            set@.contains_key(key) <==> texts(names@).contains(key),
        r is Ok ==> forall|i: int|
            0 <= i < names@.len() ==> is_allowed_name(#[trigger] texts(names@)[i]),
{
    if names.len() > MAX_ENV_KEYS {
        return Err(SandboxError::invalid_policy("environment key list exceeds 128 entries"));
    }
    let ghost faults = names@.map_values(|n: String| name_fault(n@));
    let mut set: StringMap<()> = StringMap::new();
    let mut i: usize = 0;
    while i < names.len()
        invariant
            i <= names@.len() <= MAX_ENV_KEYS,
            faults == names@.map_values(|n: String| name_fault(n@)),
            forall|j: int| 0 <= j < i ==> faults[j] is None,
            forall|j: int| 0 <= j < i ==> is_allowed_name(#[trigger] texts(names@)[j]),
            forall|key: Seq<char>| #[trigger]
                set@.contains_key(key) <==> texts(names@).take(i as int).contains(key),
        decreases names@.len() - i,
    {
        assert(texts(names@)[i as int] == names@[i as int]@);
        if !allowed_name(&names[i]) {
            proof {
                lemma_first_fault_at(faults, i as int);
            }
            return Err(
                SandboxError::InvalidPolicy(
                    concat3("environment variable ", &names[i], " is invalid or sensitive"),
                ),
            );
        }
        let ghost before = set@;
        set.insert(names[i].clone(), ());
        proof {
            let front = texts(names@).take(i as int);
            let longer = texts(names@).take(i + 1);
            assert(longer =~= front.push(names@[i as int]@));
            assert forall|key: Seq<char>| #[trigger]
                set@.contains_key(key) <==> longer.contains(key) by {
                if front.contains(key) {
                    let k = choose|k: int| 0 <= k < front.len() && front[k] == key;
                    assert(longer[k] == key);
                }
                if longer.contains(key) && key != names@[i as int]@ {
                    let k = choose|k: int| 0 <= k < longer.len() && longer[k] == key;
                    assert(front[k] == key);
                }
                assert(longer[i as int] == names@[i as int]@);
            }
        }
        i = i + 1;
    }
    proof {
        lemma_no_fault(faults);
        assert(texts(names@).take(i as int) =~= texts(names@));
    }
    Ok(set)
}

pub fn validate_environment_value(name: &str, value: &str) -> (r: Result<(), SandboxError>)
    ensures
        failure(r) == value_fault(name@, value@),
{
    if byte_len(value) > MAX_ENV_VALUE_BYTES || has_char(value, '\0') {
        return Err(
            SandboxError::InvalidPolicy(
                concat3("environment variable ", name, " is too large or contains NUL"),
            ),
        );
    }
    Ok(())
}

/// Whatever stands before it, a name that ends with a word for a credential is sensitive, and so is
/// the word alone, and every name with the prefix of the dynamic loader's variables.
pub proof fn law_credential_words_are_sensitive(front: Seq<char>)
    ensures
        is_sensitive(front + "_KEY"@),
        is_sensitive(front + "_TOKEN"@),
        is_sensitive(front + "_SECRET"@),
        is_sensitive(front + "_PASSWORD"@),
        is_sensitive(front + "_PASSWD"@),
        is_sensitive(front + "_PRIVATE_KEY"@),
        is_sensitive("KEY"@),
        is_sensitive("TOKEN"@),
        is_sensitive("SECRET"@),
        is_sensitive("PASSWORD"@),
        is_sensitive("PASSWD"@),
        is_sensitive("PRIVATE_KEY"@),
        is_sensitive("DYLD_"@ + front),
{
    lemma_suffix(front, "_KEY"@);
    lemma_suffix(front, "_TOKEN"@);
    lemma_suffix(front, "_SECRET"@);
    lemma_suffix(front, "_PASSWORD"@);
    lemma_suffix(front, "_PASSWD"@);
    lemma_suffix(front, "_PRIVATE_KEY"@);
    let dyld = "DYLD_"@ + front;
    assert(dyld.subrange(0, "DYLD_"@.len() as int) =~= "DYLD_"@);
}

proof fn lemma_suffix(front: Seq<char>, tail: Seq<char>)
    ensures
        tail.is_suffix_of(front + tail),
{
    let whole = front + tail;
    assert(whole.subrange(whole.len() - tail.len(), whole.len() as int) =~= tail);
}

/// The variables that are known to carry credentials or to change how programs are loaded are
/// sensitive, and no other name is but for its words.
pub proof fn law_known_variables_are_sensitive(name: Seq<char>)
    ensures
        name == "ANTHROPIC_API_KEY"@ || name == "OPENAI_API_KEY"@ || name == "GOOGLE_API_KEY"@
            || name == "GITHUB_TOKEN"@ || name == "GH_TOKEN"@ || name == "NPM_TOKEN"@ || name
            == "NODE_AUTH_TOKEN"@ ==> is_sensitive(name),
        name == "AWS_ACCESS_KEY_ID"@ || name == "AWS_SECRET_ACCESS_KEY"@ || name
            == "AWS_SESSION_TOKEN"@ || name == "GOOGLE_APPLICATION_CREDENTIALS"@ || name
            == "DOCKER_AUTH_CONFIG"@ || name == "DATABASE_URL"@ ==> is_sensitive(name),
        name == "BASH_ENV"@ || name == "ENV"@ || name == "LD_PRELOAD"@ || name
            == "LD_LIBRARY_PATH"@ ==> is_sensitive(name),
        is_sensitive(name) ==> {
            ||| name == "ANTHROPIC_API_KEY"@ || name == "OPENAI_API_KEY"@
            ||| name == "GOOGLE_API_KEY"@ || name == "GITHUB_TOKEN"@ || name == "GH_TOKEN"@
            ||| name == "NPM_TOKEN"@ || name == "NODE_AUTH_TOKEN"@
            ||| name == "AWS_ACCESS_KEY_ID"@ || name == "AWS_SECRET_ACCESS_KEY"@
            ||| name == "AWS_SESSION_TOKEN"@ || name == "GOOGLE_APPLICATION_CREDENTIALS"@
            ||| name == "DOCKER_AUTH_CONFIG"@
            ||| name == "DATABASE_URL"@
            ||| name == "BASH_ENV"@
            ||| name == "ENV"@
            ||| name == "LD_PRELOAD"@
            ||| name == "LD_LIBRARY_PATH"@
            ||| "DYLD_"@.is_prefix_of(name)
            ||| name == "KEY"@ || "_KEY"@.is_suffix_of(name)
            ||| name == "TOKEN"@ || "_TOKEN"@.is_suffix_of(name)
            ||| name == "SECRET"@ || "_SECRET"@.is_suffix_of(name)
            ||| name == "PASSWORD"@ || "_PASSWORD"@.is_suffix_of(name)
            ||| name == "PASSWD"@ || "_PASSWD"@.is_suffix_of(name)
            ||| name == "PRIVATE_KEY"@ || "_PRIVATE_KEY"@.is_suffix_of(name)
        },
{
}

/// A name that a policy may list consists of capital letters, digits and underscores, is not empty,
/// has no more than a hundred and twenty-eight of them, and is not sensitive; every such name may be
/// listed.
pub proof fn law_listable_names(name: Seq<char>)
    ensures
        name_fault(name) is None <==> {
            &&& 1 <= name.len()
            &&& encode_utf8(name).len() <= 128
            &&& forall|i: int|
                0 <= i < name.len() ==> ('A' <= #[trigger] name[i] <= 'Z') || ('0' <= name[i]
                    <= '9') || name[i] == '_'
            &&& !is_sensitive(name)
        },
{
    if name_fault(name) is Some && 1 <= name.len() && encode_utf8(name).len() <= 128
        && !is_sensitive(name) {
        let i = choose|i: int| 0 <= i < name.len() && !is_key_char(#[trigger] name[i]);
        assert(!is_key_char(name[i]));
    }
}

/// A list of names is accepted where it has no more than a hundred and twenty-eight, each of which
/// may be listed.
pub proof fn law_lists_of_names(names: Seq<String>)
    ensures
        names_fault(names) is None <==> names.len() <= 128 && forall|i: int|
            0 <= i < names.len() ==> name_fault((#[trigger] names[i])@) is None,
{
    let faults = names.map_values(|n: String| name_fault(n@));
    if names_fault(names) is None {
        assert forall|i: int| 0 <= i < names.len() implies name_fault((#[trigger] names[i])@)
            is None by {
            lemma_all_passed(faults, i);
        }
    } else if names.len() <= 128 {
        if forall|i: int| 0 <= i < names.len() ==> name_fault((#[trigger] names[i])@) is None {
            assert forall|i: int| 0 <= i < faults.len() implies faults[i] is None by {
                assert(name_fault(names[i]@) is None);
            }
            lemma_no_fault(faults);
        }
    }
}

/// A value is passed on where it has at most sixty-four kibibytes and holds no NUL.
pub proof fn law_passed_values(name: Seq<char>, value: Seq<char>)
    ensures
        value_fault(name, value) is None <==> encode_utf8(value).len() <= 65_536
            && !value.contains('\0'),
{
}

} // verus!
