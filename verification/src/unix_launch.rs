//! What the Unix backends have in common: where a process starts, what it runs, which variables
//! it gets, and which paths it may read and write.
use vstd::prelude::*;
use vstd::string::*;

use crate::error::{failure, SandboxError};
use crate::path::{join_unix, law_joined_unix_path, relative_form, unix_join};
use crate::policy::{
    workdir_of, writable_sources, ValidatedExecution, ValidatedMount, ValidatedPolicy,
};
use crate::protocol::{CommandSpec, ExecutionLimits, LogicalPath, MountAccess, NetworkMode};
use crate::string_map::{lemma_pair_in_map, position, StringMap};
use crate::text::{
    alnum_prefix, chars_of, concat, copy_texts, joined, replaced, take_alnum, texts,
};
use crate::windows_backend::program_fault;
use crate::workdir::{
    law_admitted_workdir_is_found, named_place, unix_fault, unix_workdir,
};

verus! {

/// How many characters of a sandbox's identifier go into the name of its temporary directory.
pub const TEMP_SUFFIX_CHARS: usize = 48;

/// The name of the temporary directory of a sandbox.
pub fn temp_directory_name(sandbox_id: &str) -> (r: String)
    ensures
        r@ == "agent-sandbox-"@ + alnum_prefix(sandbox_id@, TEMP_SUFFIX_CHARS as nat),
{
    concat("agent-sandbox-", &take_alnum(sandbox_id, TEMP_SUFFIX_CHARS))
}

/// The directory in which a process starts.
pub open spec fn unix_start(policy: ValidatedPolicy, logical: Seq<char>) -> Seq<char> {
    match named_place(logical) {
        Some((name, relative)) => unix_join(policy.mounts@[name].source@, relative),
        None => Seq::empty(),
    }
}

/// The directory in which a process starts.
pub fn native_workdir(policy: &ValidatedPolicy, logical: &str) -> (r: Result<String, SandboxError>)
    ensures
        failure(r) == unix_fault(*policy, logical@, "logical cwd mount unavailable"@),
        r matches Ok(workdir) ==> workdir@ == unix_start(*policy, logical@),
{
    match unix_workdir(policy, logical, "logical cwd mount unavailable") {
        Ok(target) => Ok(join_unix(&target.source, &target.relative)),
        Err(error) => Err(error),
    }
}

/// The program that a command starts.
pub open spec fn program_of(policy: ValidatedPolicy, command: CommandSpec) -> Seq<char> {
    match command {
        CommandSpec::Exec { program, .. } => policy.executables@[program@].path@,
        CommandSpec::Shell { .. } => "/bin/sh"@,
    }
}

/// The arguments that it gets.
pub open spec fn arguments_for(command: CommandSpec) -> Seq<Seq<char>> {
    match command {
        CommandSpec::Exec { args, .. } => texts(args@),
        CommandSpec::Shell { script, .. } => seq!["-c"@, script@],
    }
}

/// The program of a command, and its arguments.
pub fn command_line(policy: &ValidatedPolicy, command: &CommandSpec) -> (r: Result<
    (String, Vec<String>),
    SandboxError,
>)
    ensures
        failure(r) == program_fault(*policy, *command),
        r matches Ok((program, args)) ==> program@ == program_of(*policy, *command) && texts(args@)
            == arguments_for(*command),
{
    match command {
        CommandSpec::Exec { program, args } => match policy.resolve_executable(program) {
            Ok(found) => Ok((found.path.clone(), copy_texts(args))),
            Err(error) => Err(error),
        },
        CommandSpec::Shell { script, .. } => {
            let args = vec!["-c".to_owned(), script.clone()];
            assert(texts(args@) =~= seq!["-c"@, script@]);
            Ok(("/bin/sh".to_owned(), args))
        },
    }
}

/// The variables of a process: those of the execution, and its temporary directory.
pub fn process_environment(execution: &ValidatedExecution, temp_dir: &str) -> (r: StringMap<String>)
    ensures
        forall|key: Seq<char>|
            {
                &&& #[trigger] r@.contains_key(key) <==> key == "TMPDIR"@
                    || execution.environment@.contains_key(key)
                &&& r@.contains_key(key) ==> r@[key]@ == if key == "TMPDIR"@ {
                    temp_dir@
                } else {
                    execution.environment@[key]@
                }
            },
{
    let mut environment = execution.environment.duplicate();
    environment.insert("TMPDIR".to_owned(), temp_dir.to_owned());
    environment
}

/// The paths that a process may write: the mounts that the policy says so of, and its temporary
/// directory.
pub open spec fn writable_paths(policy: ValidatedPolicy, temp_dir: Seq<char>) -> Seq<Seq<char>> {
    writable_sources(policy.mounts.pairs()).push(temp_dir)
}

/// The paths that a process may write.
pub fn write_paths(policy: &ValidatedPolicy, temp_dir: &str) -> (r: Vec<String>)
    ensures
        texts(r@) == writable_paths(*policy, temp_dir@),
{
    let mut paths = policy.writable_mounts();
    let ghost before = texts(paths@);
    paths.push(temp_dir.to_owned());
    assert(texts(paths@) =~= before.push(temp_dir@));
    paths
}

/// A process may write only its temporary directory and mounts that the policy makes writable,
/// and all of these.
pub proof fn law_only_writable_mounts_are_written(
    policy: ValidatedPolicy,
    temp_dir: Seq<char>,
    path: Seq<char>,
)
    requires
        policy.mounts.wf(),
    ensures
        writable_paths(policy, temp_dir).contains(path) <==> path == temp_dir || exists|
            name: Seq<char>,
        | #[trigger]
            policy.mounts@.contains_key(name) && policy.mounts@[name].access
                == MountAccess::ReadWrite && policy.mounts@[name].source@ == path,
{
    let pairs = policy.mounts.pairs();
    let sources = writable_sources(pairs);
    let paths = writable_paths(policy, temp_dir);
    lemma_writable(pairs, path);
    assert(paths.contains(path) <==> path == temp_dir || sources.contains(path)) by {
        if paths.contains(path) {
            let p = choose|p: int| 0 <= p < paths.len() && paths[p] == path;
            if p < sources.len() {
                assert(sources[p] == path);
            }
        }
        if path == temp_dir {
            assert(paths[sources.len() as int] == path);
        }
        if sources.contains(path) {
            let p = choose|p: int| 0 <= p < sources.len() && sources[p] == path;
            assert(paths[p] == path);
        }
    }
    if sources.contains(path) {
        let i = choose|i: int|
            0 <= i < pairs.len() && (#[trigger] pairs[i]).1.access == MountAccess::ReadWrite
                && pairs[i].1.source@ == path;
        lemma_pair_in_map(pairs, i);
        assert(policy.mounts@.contains_key(pairs[i].0));
    }
    if exists|name: Seq<char>| #[trigger]
        policy.mounts@.contains_key(name) && policy.mounts@[name].access == MountAccess::ReadWrite
            && policy.mounts@[name].source@ == path {
        let name = choose|name: Seq<char>| #[trigger]
            policy.mounts@.contains_key(name) && policy.mounts@[name].access
                == MountAccess::ReadWrite && policy.mounts@[name].source@ == path;
        let i = position(pairs, name);
        assert(pairs[i].0 == name);
        lemma_pair_in_map(pairs, i);
    }
}

proof fn lemma_writable(mounts: Seq<(Seq<char>, ValidatedMount)>, path: Seq<char>)
    ensures
        writable_sources(mounts).contains(path) <==> exists|i: int|
            0 <= i < mounts.len() && (#[trigger] mounts[i]).1.access == MountAccess::ReadWrite
                && mounts[i].1.source@ == path,
    decreases mounts.len(),
{
    if mounts.len() > 0 {
        let fewer = mounts.drop_last();
        lemma_writable(fewer, path);
        let last = mounts.last().1;
        let before = writable_sources(fewer);
        let after = writable_sources(mounts);
        if after.contains(path) {
            let p = choose|p: int| 0 <= p < after.len() && after[p] == path;
            if p < before.len() {
                assert(before[p] == path);
                let i = choose|i: int|
                    0 <= i < fewer.len() && (#[trigger] fewer[i]).1.access
                        == MountAccess::ReadWrite && fewer[i].1.source@ == path;
                assert(mounts[i].1.source@ == path);
            } else {
                assert(mounts[mounts.len() - 1].1.source@ == path);
            }
        }
        if exists|i: int|
            0 <= i < mounts.len() && (#[trigger] mounts[i]).1.access == MountAccess::ReadWrite
                && mounts[i].1.source@ == path {
            let i = choose|i: int|
                0 <= i < mounts.len() && (#[trigger] mounts[i]).1.access == MountAccess::ReadWrite
                    && mounts[i].1.source@ == path;
            if i < fewer.len() {
                assert(fewer[i].1.source@ == path);
                let p = choose|p: int| 0 <= p < before.len() && before[p] == path;
                assert(after[p] == path);
            } else {
                assert(after[before.len() as int] == path);
            }
        }
    }
}

/// Whether the network is to be cut off.
pub fn denies_network(policy: &ValidatedPolicy) -> (r: bool)
    ensures
        r == (policy.original.network.mode == NetworkMode::Deny),
{
    policy.original.network.mode == NetworkMode::Deny
}

/// The entries of a search path, which colons separate: one entry more than there are colons.
pub open spec fn entries_of(search: Seq<char>) -> Seq<Seq<char>>
    decreases search.len(),
{
    if search.len() == 0 {
        seq![Seq::empty()]
    } else {
        let before = entries_of(search.drop_last());
        if search.last() == ':' {
            before.push(Seq::empty())
        } else {
            before.update(before.len() - 1, before.last().push(search.last()))
        }
    }
}

/// The entries of the search path of a process; none where it has no search path.
pub fn search_entries(environment: &StringMap<String>) -> (r: Vec<String>)
    ensures
        texts(r@) == if environment@.contains_key("PATH"@) {
            entries_of(environment@["PATH"@]@)
        } else {
            Seq::empty()
        },
{
    let chars = match environment.get("PATH") {
        Some(search) => chars_of(search),
        None => {
            let none: Vec<String> = Vec::new();
            assert(texts(none@) =~= Seq::<Seq<char>>::empty());
            return none;
        },
    };
    let mut done: Vec<String> = Vec::new();
    let mut current = String::new();
    let mut i: usize = 0;
    assert(texts(done@).push(current@) =~= entries_of(chars@.take(0)));
    while i < chars.len()
        invariant
            i <= chars@.len(),
            texts(done@).push(current@) == entries_of(chars@.take(i as int)),
        decreases chars@.len() - i,
    {
        let ghost before = texts(done@).push(current@);
        assert(chars@.take(i + 1).drop_last() =~= chars@.take(i as int));
        if chars[i] == ':' {
            done.push(current);
            current = String::new();
            assert(texts(done@) =~= before);
            assert(texts(done@).push(current@) =~= before.push(Seq::empty()));
        } else {
            assert(before.last() == current@);
            current.push(chars[i]);
            assert(texts(done@).push(current@) =~= before.update(
                before.len() - 1,
                before.last().push(chars@[i as int]),
            ));
        }
        i = i + 1;
    }
    assert(chars@.take(i as int) =~= chars@);
    let ghost head = texts(done@);
    done.push(current);
    assert(texts(done@) =~= head.push(current@));
    done
}

/// The form in which a path of the system is opened to a process: none where it does not exist,
/// and the path itself where the host has no canonical form of it.
pub fn system_path(path: &str, exists: bool, canonical: Option<String>) -> (r: Option<String>)
    ensures
        match r {
            Some(found) => exists && found@ == match canonical {
                Some(form) => form@,
                None => path@,
            },
            None => !exists,
        },
{
    if !exists {
        return None;
    }
    match canonical {
        Some(form) => Some(form),
        None => Some(path.to_owned()),
    }
}

/// Paths that the host resolved, where it could.
pub open spec fn resolved(paths: Seq<Option<String>>, path: Seq<char>) -> bool {
    exists|i: int| 0 <= i < paths.len() && (#[trigger] paths[i] matches Some(p) && p@ == path)
}

/// Whether a process may read a path: a mount, a path of the system, the directory of its
/// program, or an entry of its search path.
pub open spec fn is_readable(
    policy: ValidatedPolicy,
    system: Seq<Option<String>>,
    program_directory: Option<Seq<char>>,
    search: Seq<Option<String>>,
    path: Seq<char>,
) -> bool {
    ||| exists|name: Seq<char>| #[trigger]
        policy.mounts@.contains_key(name) && policy.mounts@[name].source@ == path
    ||| resolved(system, path)
    ||| program_directory == Some(path)
    ||| resolved(search, path)
}

fn insert_resolved(found: &mut StringMap<()>, paths: &Vec<Option<String>>)
    ensures
        forall|path: Seq<char>| #[trigger]
            final(found)@.contains_key(path) <==> old(found)@.contains_key(path) || resolved(
                paths@,
                path,
            ),
{
    let ghost start = found@;
    let mut i: usize = 0;
    while i < paths.len()
        invariant
            i <= paths@.len(),
            forall|path: Seq<char>| #[trigger]
                found@.contains_key(path) <==> start.contains_key(path) || resolved(
                    paths@.take(i as int),
                    path,
                ),
        decreases paths@.len() - i,
    {
        let ghost before = found@;
        let ghost fewer = paths@.take(i as int);
        let ghost more = paths@.take(i + 1);
        match &paths[i] {
            Some(path) => {
                found.insert(path.clone(), ());
            },
            None => {},
        }
        proof {
            assert forall|path: Seq<char>| #[trigger]
                found@.contains_key(path) <==> start.contains_key(path) || resolved(more, path) by {
                assert(before.contains_key(path) <==> start.contains_key(path) || resolved(
                    fewer,
                    path,
                ));
                if resolved(fewer, path) {
                    let p = choose|p: int|
                        0 <= p < fewer.len() && (#[trigger] fewer[p] matches Some(x) && x@
                            == path);
                    assert(more[p] matches Some(x) && x@ == path);
                }
                if resolved(more, path) {
                    let p = choose|p: int|
                        0 <= p < more.len() && (#[trigger] more[p] matches Some(x) && x@ == path);
                    if p < i {
                        assert(fewer[p] matches Some(x) && x@ == path);
                    }
                }
                if found@.contains_key(path) && !before.contains_key(path) {
                    assert(more[i as int] matches Some(x) && x@ == path);
                }
            }
        }
        i = i + 1;
    }
    proof {
        assert(paths@.take(i as int) =~= paths@);
    }
}

/// The paths that a process may read. `system` are the paths of the system that exist,
/// `program_directory` is the directory of the program, `search` are the entries of its search
/// path; each in canonical form.
pub fn runtime_read_paths(
    policy: &ValidatedPolicy,
    system: &Vec<Option<String>>,
    program_directory: Option<String>,
    search: &Vec<Option<String>>,
) -> (r: StringMap<()>)
    ensures
        forall|path: Seq<char>| #[trigger]
            r@.contains_key(path) <==> is_readable(
                *policy,
                system@,
                match program_directory {
                    Some(p) => Some(p@),
                    None => None,
                },
                search@,
                path,
            ),
{
    let mut found: StringMap<()> = StringMap::new();
    let count: usize = policy.mounts.len();
    let ghost pairs = policy.mounts.pairs();
    let mut i: usize = 0;
    while i < count
        invariant
            i <= count == pairs.len(),
            pairs == policy.mounts.pairs(),
            policy.mounts.wf(),
            forall|path: Seq<char>| #[trigger]
                found@.contains_key(path) <==> exists|j: int|
                    0 <= j < i && (#[trigger] pairs[j]).1.source@ == path,
        decreases count - i,
    {
        let ghost before = found@;
        found.insert(policy.mounts.value_at(i).source.clone(), ());
        proof {
            assert forall|path: Seq<char>| #[trigger]
                found@.contains_key(path) <==> exists|j: int|
                    0 <= j < i + 1 && (#[trigger] pairs[j]).1.source@ == path by {
                if path == pairs[i as int].1.source@ {
                    assert(pairs[i as int].1.source@ == path);
                } else {
                    assert(found@.contains_key(path) == before.contains_key(path));
                }
            }
        }
        i = i + 1;
    }
    proof {
        assert forall|path: Seq<char>| #[trigger]
            found@.contains_key(path) <==> exists|name: Seq<char>| #[trigger]
                policy.mounts@.contains_key(name) && policy.mounts@[name].source@ == path by {
            if found@.contains_key(path) {
                let j = choose|j: int| 0 <= j < pairs.len() && (#[trigger] pairs[j]).1.source@ == path;
                lemma_pair_in_map(pairs, j);
                assert(policy.mounts@.contains_key(pairs[j].0));
            }
            if exists|name: Seq<char>| #[trigger]
                policy.mounts@.contains_key(name) && policy.mounts@[name].source@ == path {
                let name = choose|name: Seq<char>| #[trigger]
                    policy.mounts@.contains_key(name) && policy.mounts@[name].source@ == path;
                let j = position(pairs, name);
                assert(pairs[j].0 == name);
                lemma_pair_in_map(pairs, j);
                assert(pairs[j].1.source@ == path);
            }
        }
    }
    insert_resolved(&mut found, system);
    match program_directory {
        Some(directory) => {
            found.insert(directory, ());
        },
        None => {},
    }
    insert_resolved(&mut found, search);
    found
}

/// The status of a process that ended: its exit code, or one made of the signal that ended it.
pub fn exit_code(code: Option<i32>, signal: Option<i32>) -> (r: i32)
    requires
        signal matches Some(s) ==> s <= i32::MAX - 128,
    ensures
        r == match code {
            Some(c) => c as int,
            None => match signal {
                Some(s) => 128 + s,
                None => 128,
            },
        },
{
    match code {
        Some(c) => c,
        None => match signal {
            Some(s) => 128 + s,
            None => 128,
        },
    }
}

/// A script is run by the system's shell, as it was written; a program is the declared one, with
/// exactly the arguments of the command.
pub proof fn law_command_is_run_as_written(policy: ValidatedPolicy, command: CommandSpec)
    ensures
        command is Shell ==> program_of(policy, command) == "/bin/sh"@ && arguments_for(
            command,
        ).len() == 2 && arguments_for(command)[0] == "-c"@ && arguments_for(command)[1]
            == command->script@,
        command is Exec ==> program_of(policy, command)
            == policy.executables@[command->program@].path@ && arguments_for(command) == texts(
            command->args@,
        ),
{
}

/// An admitted execution starts at the source of its mount with the path that was asked for behind
/// it.
pub proof fn law_execution_starts_where_it_was_asked_to(
    policy: ValidatedPolicy,
    command: CommandSpec,
    cwd: LogicalPath,
    environment: StringMap<String>,
    limits: ExecutionLimits,
)
    requires
        policy.wf(),
        policy.mounts.wf(),
        policy.execution_fault(command, cwd, environment, limits) is None,
    ensures
        ({
            let mount = policy.mounts@[cwd.mount@];
            let relative = relative_form(policy.platform, cwd.path@);
            let start = unix_start(policy, workdir_of(mount.destination@, relative));
            mount.source@.len() > 0 && mount.source@.last() != '/' ==> start
                == mount.source@.push('/') + replaced(relative, '\\', '/')
        }),
{
    law_admitted_workdir_is_found(policy, command, cwd, environment, limits);
    let source = policy.mounts@[cwd.mount@].source@;
    let inside = replaced(relative_form(policy.platform, cwd.path@), '\\', '/');
    law_joined_unix_path(source, inside);
}

/// The entries of a search path, with colons between, are the search path itself, and there is no
/// colon in any entry.
pub proof fn law_entries_make_the_search_path(search: Seq<char>, i: int)
    ensures
        entries_of(search).len() > 0,
        joined(entries_of(search), seq![':']) == search,
        0 <= i < entries_of(search).len() ==> !entries_of(search)[i].contains(':'),
    decreases search.len(),
{
    if search.len() == 0 {
        assert(joined(entries_of(search), seq![':']) =~= search);
    } else {
        let rest = search.drop_last();
        let before = entries_of(rest);
        let all = entries_of(search);
        law_entries_make_the_search_path(rest, i);
        law_entries_make_the_search_path(rest, before.len() - 1);
        assert(all.drop_last() =~= if search.last() == ':' {
            before
        } else {
            before.drop_last()
        });
        assert(rest.push(search.last()) =~= search);
        if search.last() == ':' {
            assert(joined(all, seq![':']) =~= joined(before, seq![':']) + seq![':']);
        } else {
            let last = before.last().push(search.last());
            assert(all.last() == last);
            if before.len() == 1 {
                assert(joined(all, seq![':']) =~= joined(before, seq![':']).push(search.last()));
            } else {
                let front = joined(before.drop_last(), seq![':']);
                assert(joined(before, seq![':']) == front + seq![':'] + before.last());
                assert(joined(all, seq![':']) == front + seq![':'] + last);
                assert(joined(all, seq![':']) =~= joined(before, seq![':']).push(search.last()));
            }
            assert(!last.contains(':')) by {
                if last.contains(':') {
                    let k = choose|k: int| 0 <= k < last.len() && last[k] == ':';
                    assert(before.last()[k] == ':');
                }
            }
        }
    }
}

/// A process may read every mount, every path of the system and of its search path that there is,
/// and the directory of its program; and whatever it may read is one of these.
pub proof fn law_readable_paths(
    policy: ValidatedPolicy,
    system: Seq<Option<String>>,
    program_directory: Option<Seq<char>>,
    search: Seq<Option<String>>,
    name: Seq<char>,
    i: int,
    path: Seq<char>,
)
    ensures
        policy.mounts@.contains_key(name) ==> is_readable(
            policy,
            system,
            program_directory,
            search,
            policy.mounts@[name].source@,
        ),
        0 <= i < system.len() && system[i] is Some ==> is_readable(
            policy,
            system,
            program_directory,
            search,
            system[i]->0@,
        ),
        0 <= i < search.len() && search[i] is Some ==> is_readable(
            policy,
            system,
            program_directory,
            search,
            search[i]->0@,
        ),
        program_directory is Some ==> is_readable(
            policy,
            system,
            program_directory,
            search,
            program_directory->0,
        ),
        is_readable(policy, system, program_directory, search, path) && program_directory != Some(
            path,
        ) && (forall|k: int|
            0 <= k < system.len() ==> !(#[trigger] system[k] matches Some(p) && p@ == path)) && (
        forall|k: int|
            0 <= k < search.len() ==> !(#[trigger] search[k] matches Some(p) && p@ == path))
            ==> exists|other: Seq<char>| #[trigger]
            policy.mounts@.contains_key(other) && policy.mounts@[other].source@ == path,
{
}

} // verus!
