//! Where the logical working directory of an execution lies on the host.
use vstd::prelude::*;
use vstd::string::*;

use crate::error::{failure, Fault, SandboxError};
use crate::path::{law_accepted_path_stays_inside, relative_form, unix_join};
use crate::policy::{destination_of, is_mount_name, is_mount_name_char, workdir_of, ValidatedPolicy};
use crate::protocol::{CommandSpec, ExecutionLimits, LogicalPath};
use crate::string_map::{lemma_pair_in_map, position, StringMap};
use crate::text::{
    chars_of, concat, has_prefix, lemma_text_lt_irreflexive, part_of, replaced, same_text,
    skip_chars, string_of, text_lt, trim_start, trimmed_start,
};

verus! {

/// A path below the source of a mount.
#[derive(Debug, Clone, PartialEq, Eq)]
pub struct WorkdirTarget {
    pub source: String,
    pub relative: String,
}

/// Whether a logical path is that of a mount or lies below it.
pub open spec fn is_at(destination: Seq<char>, logical: Seq<char>) -> bool {
    logical == destination || (destination + "/"@).is_prefix_of(logical)
}

/// The part of a logical path below the mount, without the slashes at its front.
pub open spec fn below(destination: Seq<char>, logical: Seq<char>) -> Seq<char> {
    trimmed_start(logical.skip(destination.len() as int), |c: char| c == '/')
}

/// Whether the mount at a place of the policy is the first one that holds the path.
pub open spec fn is_first_at(policy: ValidatedPolicy, logical: Seq<char>, i: int) -> bool {
    let mounts = policy.mounts.pairs();
    &&& 0 <= i < mounts.len()
    &&& is_at(mounts[i].1.destination@, logical)
    &&& forall|j: int| 0 <= j < i ==> !is_at((#[trigger] mounts[j]).1.destination@, logical)
}

/// The source of the first mount that holds a logical path, and the path below it.
pub open spec fn located(policy: ValidatedPolicy, logical: Seq<char>) -> Option<
    (Seq<char>, Seq<char>),
> {
    if exists|i: int| is_first_at(policy, logical, i) {
        let i = choose|i: int| is_first_at(policy, logical, i);
        let mount = policy.mounts.pairs()[i].1;
        Some((mount.source@, below(mount.destination@, logical)))
    } else {
        None
    }
}

/// The text up to the first slash, and the text behind it.
pub open spec fn split_at_slash(s: Seq<char>) -> (Seq<char>, Seq<char>)
    decreases s.len(),
{
    if s.len() == 0 {
        (Seq::empty(), Seq::empty())
    } else if s[0] == '/' {
        (Seq::empty(), s.drop_first())
    } else {
        let rest = split_at_slash(s.drop_first());
        (seq![s[0]] + rest.0, rest.1)
    }
}

/// The mount and the path below it that a logical path names; nothing where it names no mount.
pub open spec fn named_place(logical: Seq<char>) -> Option<(Seq<char>, Seq<char>)> {
    if "mount://"@.is_prefix_of(logical) {
        Some(split_at_slash(logical.skip("mount://"@.len() as int)))
    } else {
        None
    }
}

/// Finds the mount that holds a logical path.
pub fn locate(policy: &ValidatedPolicy, logical: &str) -> (r: Option<WorkdirTarget>)
    ensures
        match r {
            Some(target) => located(*policy, logical@) == Some(
                (target.source@, target.relative@),
            ),
            None => located(*policy, logical@) is None,
        },
{
    let count: usize = policy.mounts.len();
    let ghost mounts = policy.mounts.pairs();
    let mut i: usize = 0;
    while i < count
        invariant
            i <= count == mounts.len(),
            mounts == policy.mounts.pairs(),
            forall|j: int| 0 <= j < i ==> !is_at((#[trigger] mounts[j]).1.destination@, logical@),
        decreases count - i,
    {
        let mount = policy.mounts.value_at(i);
        if same_text(logical, &mount.destination) || has_prefix(
            logical,
            &concat(&mount.destination, "/"),
        ) {
            proof {
                assert(is_first_at(*policy, logical@, i as int));
                let k = choose|k: int| is_first_at(*policy, logical@, k);
                assert(k == i) by {
                    if k < i {
                        assert(!is_at(mounts[k].1.destination@, logical@));
                    }
                }
                assert(mount.destination@.len() <= logical@.len());
            }
            let rest = skip_chars(logical, mount.destination.as_str().unicode_len());
            return Some(
                WorkdirTarget { source: mount.source.clone(), relative: trim_start(&rest, '/') },
            );
        }
        i = i + 1;
    }
    None
}

/// Why a logical path names no mount of a policy on Unix.
pub open spec fn unix_fault(
    policy: ValidatedPolicy,
    logical: Seq<char>,
    unavailable: Seq<char>,
) -> Option<Fault> {
    match named_place(logical) {
        None => Some(Fault::InvalidPolicy("invalid logical cwd"@)),
        Some((name, _)) => if policy.mounts@.contains_key(name) {
            None
        } else {
            Some(Fault::InvalidPolicy(unavailable))
        },
    }
}

/// The host path of a logical path on Unix; `unavailable` says what is wrong where there is no
/// such mount.
pub fn unix_workdir(policy: &ValidatedPolicy, logical: &str, unavailable: &str) -> (r: Result<
    WorkdirTarget,
    SandboxError,
>)
    ensures
        failure(r) == unix_fault(*policy, logical@, unavailable@),
        r matches Ok(target) ==> (named_place(logical@) matches Some((name, relative))
            && target.source@ == policy.mounts@[name].source@ && target.relative@ == relative),
{
    if !has_prefix(logical, "mount://") {
        return Err(SandboxError::invalid_policy("invalid logical cwd"));
    }
    let marker: usize = "mount://".unicode_len();
    let rest = skip_chars(logical, marker);
    let (name, relative) = split_slash(&rest);
    match policy.mounts.get(&name) {
        Some(mount) => Ok(WorkdirTarget { source: mount.source.clone(), relative }),
        None => Err(SandboxError::invalid_policy(unavailable)),
    }
}

fn split_slash(s: &str) -> (r: (String, String))
    ensures
        (r.0@, r.1@) == split_at_slash(s@),
{
    let chars = chars_of(s);
    let mut i: usize = 0;
    proof {
        lemma_split_found(s@, 0);
        assert(s@.skip(0) =~= s@);
        assert(s@.take(0) + split_at_slash(s@).0 =~= split_at_slash(s@).0);
    }
    while i < chars.len() && chars[i] != '/'
        invariant
            i <= chars@.len(),
            chars@ == s@,
            split_at_slash(s@) == (
                s@.take(i as int) + split_at_slash(s@.skip(i as int)).0,
                split_at_slash(s@.skip(i as int)).1,
            ),
        decreases chars@.len() - i,
    {
        proof {
            let here = s@.skip(i as int);
            assert(here.drop_first() =~= s@.skip(i + 1));
            assert(s@.take(i as int) + (seq![here[0]] + split_at_slash(here.drop_first()).0)
                =~= s@.take(i + 1) + split_at_slash(s@.skip(i + 1)).0);
        }
        i = i + 1;
    }
    let name = part_of(&chars, 0, i);
    if i < chars.len() {
        let rest = part_of(&chars, i + 1, chars.len());
        proof {
            assert(s@.skip(i as int).drop_first() =~= rest@);
            assert(name@ =~= s@.take(i as int) + Seq::<char>::empty());
        }
        (string_of(&name), string_of(&rest))
    } else {
        proof {
            assert(name@ =~= s@.take(i as int) + Seq::<char>::empty());
        }
        (string_of(&name), String::new())
    }
}

/// A slash that no other comes before is where the text is split.
proof fn lemma_split_found(s: Seq<char>, at: int)
    requires
        0 <= at <= s.len(),
        forall|i: int| 0 <= i < at ==> s[i] != '/',
    ensures
        at == s.len() ==> split_at_slash(s) == (s, Seq::<char>::empty()),
        at < s.len() && s[at] == '/' ==> split_at_slash(s) == (s.take(at), s.skip(at + 1)),
    decreases at,
{
    if at == 0 {
        assert(s.take(0) =~= Seq::<char>::empty());
        assert(s.skip(1) =~= s.drop_first() || s.len() == 0);
        assert(s.len() == 0 ==> s =~= Seq::<char>::empty());
    } else {
        lemma_split_found(s.drop_first(), at - 1);
        assert(seq![s[0]] + s.drop_first() =~= s);
        assert(seq![s[0]] + s.drop_first().take(at - 1) =~= s.take(at));
        if at < s.len() {
            assert(s.drop_first().skip(at) =~= s.skip(at + 1));
        }
    }
}

proof fn lemma_at_char(destination: Seq<char>, logical: Seq<char>, i: int)
    requires
        is_at(destination, logical),
        0 <= i < destination.len(),
    ensures
        destination.len() <= logical.len(),
        logical[i] == destination[i],
{
    if logical != destination {
        let front = destination + "/"@;
        assert(logical.subrange(0, front.len() as int)[i] == front[i]);
    }
}

proof fn lemma_slash_behind(destination: Seq<char>, logical: Seq<char>)
    requires
        is_at(destination, logical),
        logical != destination,
    ensures
        destination.len() < logical.len(),
        logical[destination.len() as int] == '/',
{
    reveal_strlit("/");
    let front = destination + "/"@;
    assert(logical.subrange(0, front.len() as int)[destination.len() as int] == front[destination.len() as int]);
}

/// Mounts with different names hold no path in common.
proof fn lemma_one_holder(a: Seq<char>, b: Seq<char>, logical: Seq<char>)
    requires
        is_mount_name(a),
        is_mount_name(b),
        is_at(destination_of(a), logical),
        is_at(destination_of(b), logical),
    ensures
        a == b,
{
    reveal_strlit("/");
    let mark = "mount://"@;
    let m = mark.len() as int;
    assert forall|i: int| 0 <= i < a.len() implies logical[m + i] == #[trigger] a[i] by {
        lemma_at_char(destination_of(a), logical, m + i);
        assert(destination_of(a)[m + i] == a[i]);
    }
    assert forall|i: int| 0 <= i < b.len() implies logical[m + i] == #[trigger] b[i] by {
        lemma_at_char(destination_of(b), logical, m + i);
        assert(destination_of(b)[m + i] == b[i]);
    }
    if a.len() < b.len() {
        if logical != destination_of(a) {
            lemma_slash_behind(destination_of(a), logical);
            assert(logical[m + a.len()] == '/');
        }
        assert(is_mount_name_char(b[a.len() as int]));
        assert(logical[m + a.len()] == b[a.len() as int]);
    } else if b.len() < a.len() {
        if logical != destination_of(b) {
            lemma_slash_behind(destination_of(b), logical);
            assert(logical[m + b.len()] == '/');
        }
        assert(is_mount_name_char(a[b.len() as int]));
        assert(logical[m + b.len()] == a[b.len() as int]);
    } else {
        assert(a =~= b);
    }
}

/// A logical path that names a mount and a path below it, the latter without a slash in front.
spec fn is_place(name: Seq<char>, inside: Seq<char>, logical: Seq<char>) -> bool {
    &&& inside.len() > 0 ==> inside[0] != '/'
    &&& logical == if inside.len() == 0 {
        destination_of(name)
    } else {
        destination_of(name) + seq!['/'] + inside
    }
}

proof fn lemma_place_below(name: Seq<char>, inside: Seq<char>, logical: Seq<char>)
    requires
        is_place(name, inside, logical),
    ensures
        is_at(destination_of(name), logical),
        below(destination_of(name), logical) == inside,
{
    reveal_strlit("/");
    assert("/"@ =~= seq!['/']);
    let destination = destination_of(name);
    let tail = logical.skip(destination.len() as int);
    let skip = |c: char| c == '/';
    if inside.len() == 0 {
        assert(tail =~= Seq::<char>::empty());
        assert(inside =~= Seq::<char>::empty());
    } else {
        let front = destination + "/"@;
        assert(logical.subrange(0, front.len() as int) =~= front);
        assert(tail =~= seq!['/'] + inside);
        assert(tail.drop_first() =~= inside);
        assert(trimmed_start(tail, skip) == trimmed_start(inside, skip));
    }
}

proof fn lemma_place_located(
    policy: ValidatedPolicy,
    name: Seq<char>,
    inside: Seq<char>,
    logical: Seq<char>,
)
    requires
        policy.wf(),
        policy.mounts.wf(),
        policy.mounts@.contains_key(name),
        is_place(name, inside, logical),
    ensures
        located(policy, logical) == Some((policy.mounts@[name].source@, inside)),
{
    let pairs = policy.mounts.pairs();
    let at = position(pairs, name);
    assert(pairs[at].0 == name && 0 <= at < pairs.len());
    lemma_pair_in_map(pairs, at);
    lemma_place_below(name, inside, logical);
    assert forall|j: int| 0 <= j < at implies !is_at(
        (#[trigger] pairs[j]).1.destination@,
        logical,
    ) by {
        lemma_pair_in_map(pairs, j);
        assert(policy.mounts@.contains_key(pairs[j].0));
        if is_at(pairs[j].1.destination@, logical) {
            lemma_one_holder(pairs[j].0, name, logical);
            assert(text_lt(pairs[j].0, pairs[at].0));
            lemma_text_lt_irreflexive(name);
        }
    }
    assert(is_first_at(policy, logical, at));
    let k = choose|k: int| is_first_at(policy, logical, k);
    assert(k == at) by {
        if k < at {
            assert(!is_at(pairs[k].1.destination@, logical));
        }
    }
}

proof fn lemma_place_named(name: Seq<char>, inside: Seq<char>, logical: Seq<char>)
    requires
        is_mount_name(name),
        is_place(name, inside, logical),
    ensures
        named_place(logical) == Some((name, inside)),
{
    let mark = "mount://"@;
    assert(logical.subrange(0, mark.len() as int) =~= mark);
    let rest = logical.skip(mark.len() as int);
    let n = name.len() as int;
    assert forall|i: int| 0 <= i < n implies rest[i] != '/' by {
        assert(rest[i] == name[i]);
        assert(is_mount_name_char(name[i]));
    }
    lemma_split_found(rest, n);
    if inside.len() == 0 {
        assert(rest =~= name);
        assert(inside =~= Seq::<char>::empty());
    } else {
        assert(rest =~= name + seq!['/'] + inside);
        assert(rest.take(n) =~= name);
        assert(rest.skip(n + 1) =~= inside);
    }
}

/// The working directory of an admitted execution is found in the very mount that the request
/// named, at the path that the request gave, in whichever of the two ways it is looked up.
pub proof fn law_admitted_workdir_is_found(
    policy: ValidatedPolicy,
    command: CommandSpec,
    cwd: LogicalPath,
    environment: StringMap<String>,
    limits: ExecutionLimits,
)
    requires
        policy.wf(),
        policy.mounts.wf(),
        policy.execution_fault(command, cwd, environment, limits) is None,
    ensures
        ({
            let mount = policy.mounts@[cwd.mount@];
            let relative = relative_form(policy.platform, cwd.path@);
            let logical = workdir_of(mount.destination@, relative);
            let inside = replaced(relative, '\\', '/');
            &&& located(policy, logical) == Some((mount.source@, inside))
            &&& named_place(logical) == Some((cwd.mount@, inside))
            &&& inside.len() > 0 ==> inside[0] != '/'
        }),
{
    let name = cwd.mount@;
    let relative = relative_form(policy.platform, cwd.path@);
    let logical = workdir_of(policy.mounts@[name].destination@, relative);
    let inside = replaced(relative, '\\', '/');
    law_accepted_path_stays_inside(policy.platform, cwd.path@);
    assert(policy.mounts@.contains_key(name));
    assert(is_place(name, inside, logical)) by {
        reveal_strlit("/");
        assert("/"@ =~= seq!['/']);
    }
    lemma_place_located(policy, name, inside, logical);
    lemma_place_named(name, inside, logical);
}

/// The host path at which an admitted execution starts on Unix begins with the source of its
/// mount.
pub proof fn law_admitted_workdir_is_below_the_source(
    policy: ValidatedPolicy,
    command: CommandSpec,
    cwd: LogicalPath,
    environment: StringMap<String>,
    limits: ExecutionLimits,
)
    requires
        policy.wf(),
        policy.mounts.wf(),
        policy.execution_fault(command, cwd, environment, limits) is None,
    ensures
        ({
            let mount = policy.mounts@[cwd.mount@];
            let logical = workdir_of(
                mount.destination@,
                relative_form(policy.platform, cwd.path@),
            );
            named_place(logical) matches Some((name, relative)) && mount.source@.is_prefix_of(
                unix_join(policy.mounts@[name].source@, relative),
            )
        }),
{
    law_admitted_workdir_is_found(policy, command, cwd, environment, limits);
    let source = policy.mounts@[cwd.mount@].source@;
    let inside = replaced(relative_form(policy.platform, cwd.path@), '\\', '/');
    assert(unix_join(source, inside).subrange(0, source.len() as int) =~= source);
}

} // verus!
