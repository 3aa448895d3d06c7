//! The macOS backend: a Seatbelt profile, and a watchdog over the processes of an execution.
use vstd::prelude::*;
use vstd::string::*;

use crate::limits::{saturated_product, saturating_product};
use crate::linux_backend::{enforced_features, feature_table};
use crate::protocol::{CapabilityReport, EnforcementStatus, ResourceLimits};
use crate::seatbelt::{
    all_printable, double_path_rules, double_rules_for, escaped, law_every_path_has_its_rule,
    path_rules, rules_for,
};
use crate::text::{concat, concat3, texts};

verus! {

/// What the backend enforces.
pub fn report() -> (r: CapabilityReport)
    ensures
        r.platform@ == "macos"@,
        r.backend@ == "macos-seatbelt-libproc-watchdog"@,
        r.status == EnforcementStatus::Enforced,
        r.features@ == enforced_features(),
        texts(r.reasons@) == seq![
            "Seatbelt restrictions inherit across the complete descendant tree"@,
            "libproc watchdog enforcement terminates the tracked tree on aggregate resource limits"@,
        ],
{
    let reasons = vec![
        "Seatbelt restrictions inherit across the complete descendant tree".to_owned(),
        "libproc watchdog enforcement terminates the tracked tree on aggregate resource limits"
            .to_owned(),
    ];
    assert(texts(reasons@) =~= seq![
        "Seatbelt restrictions inherit across the complete descendant tree"@,
        "libproc watchdog enforcement terminates the tracked tree on aggregate resource limits"@,
    ]);
    CapabilityReport {
        platform: "macos".to_owned(),
        backend: "macos-seatbelt-libproc-watchdog".to_owned(),
        status: EnforcementStatus::Enforced,
        features: feature_table(),
        reasons,
    }
}

/// What every profile begins with: everything is denied but what a process needs to run at all.
pub open spec fn profile_head() -> Seq<char> {
    "(version 1)\n(deny default)\n(allow process-exec*)\n(allow process-fork)\n(allow process-info* (target self))\n(allow process-info* (target same-sandbox))\n(allow signal (target self))\n(allow signal (target same-sandbox))\n(allow sysctl-read)\n(allow mach-lookup)\n(deny mach-lookup (global-name \"com.apple.SecurityServer\"))\n(deny mach-lookup (global-name \"com.apple.securityd\"))\n(deny mach-lookup (global-name \"com.apple.security.keychaind\"))\n(deny mach-lookup (global-name \"com.apple.secd\"))\n(deny mach-lookup (global-name \"com.apple.security.agent\"))\n(allow mach-per-user-lookup)\n(allow mach-task-name)\n(deny mach-priv*)\n(allow ipc-posix-shm-read-data)\n(allow ipc-posix-shm-write-data)\n(allow ipc-posix-shm-write-create)\n(allow system-fsctl)\n(allow system-info)\n(allow file-read-metadata)\n(allow file-read* (literal \"/\"))\n"@
}

/// The profile of a process: its paths, and the network unless that is denied.
pub open spec fn profile_of(
    readable: Seq<Seq<char>>,
    writable: Seq<Seq<char>>,
    deny_network: bool,
) -> Seq<char> {
    let network = if deny_network {
        ""@
    } else {
        "(allow network*)\n(allow system-socket)\n"@
    };
    profile_head() + double_rules_for(
        readable,
        "(allow file-read* (subpath \""@,
        "\"))\n(allow file-map-executable (subpath \""@,
        "\"))\n"@,
    ) + rules_for(writable, "(allow file-read* file-write* (subpath \""@, "\"))\n"@) + network
}

/// The profile of a process; there is none where a path holds control characters.
pub fn seatbelt_profile(readable: &Vec<String>, writable: &Vec<String>, deny_network: bool) -> (r:
    Result<String, String>)
    ensures
        match r {
            Ok(profile) => all_printable(texts(readable@)) && all_printable(texts(writable@))
                && profile@ == profile_of(texts(readable@), texts(writable@), deny_network),
            Err(message) => !(all_printable(texts(readable@)) && all_printable(texts(writable@)))
                && message@ == "Seatbelt path contains control characters"@,
        },
{
    let head = "(version 1)\n(deny default)\n(allow process-exec*)\n(allow process-fork)\n(allow process-info* (target self))\n(allow process-info* (target same-sandbox))\n(allow signal (target self))\n(allow signal (target same-sandbox))\n(allow sysctl-read)\n(allow mach-lookup)\n(deny mach-lookup (global-name \"com.apple.SecurityServer\"))\n(deny mach-lookup (global-name \"com.apple.securityd\"))\n(deny mach-lookup (global-name \"com.apple.security.keychaind\"))\n(deny mach-lookup (global-name \"com.apple.secd\"))\n(deny mach-lookup (global-name \"com.apple.security.agent\"))\n(allow mach-per-user-lookup)\n(allow mach-task-name)\n(deny mach-priv*)\n(allow ipc-posix-shm-read-data)\n(allow ipc-posix-shm-write-data)\n(allow ipc-posix-shm-write-create)\n(allow system-fsctl)\n(allow system-info)\n(allow file-read-metadata)\n(allow file-read* (literal \"/\"))\n";
    let reads = match double_path_rules(
        readable,
        "(allow file-read* (subpath \"",
        "\"))\n(allow file-map-executable (subpath \"",
        "\"))\n",
    ) {
        Ok(rules) => rules,
        Err(message) => {
            return Err(message);
        },
    };
    let writes = match path_rules(writable, "(allow file-read* file-write* (subpath \"", "\"))\n") {
        Ok(rules) => rules,
        Err(message) => {
            return Err(message);
        },
    };
    let network = if deny_network {
        ""
    } else {
        "(allow network*)\n(allow system-socket)\n"
    };
    Ok(concat(&concat3(head, &reads, &writes), network))
}

/// The paths of the system that every process may read, where they exist.
pub fn system_paths() -> (r: Vec<String>)
    ensures
        texts(r@) == seq![
            "/bin"@,
            "/usr/bin"@,
            "/usr/lib"@,
            "/System/Library"@,
            "/Library/Apple"@,
            "/dev/null"@,
            "/dev/urandom"@,
        ],
{
    let paths = vec![
        "/bin".to_owned(),
        "/usr/bin".to_owned(),
        "/usr/lib".to_owned(),
        "/System/Library".to_owned(),
        "/Library/Apple".to_owned(),
        "/dev/null".to_owned(),
        "/dev/urandom".to_owned(),
    ];
    assert(texts(paths@) =~= seq![
        "/bin"@,
        "/usr/bin"@,
        "/usr/lib"@,
        "/System/Library"@,
        "/Library/Apple"@,
        "/dev/null"@,
        "/dev/urandom"@,
    ]);
    paths
}

/// What the system says of a process.
#[derive(Debug, Clone, Copy, PartialEq, Eq)]
pub struct ProcessSnapshot {
    pub pid: i32,
    pub ppid: i32,
    pub resident_size: u64,
    pub user_time: u64,
    pub system_time: u64,
}

/// Whether a set of processes holds, of every process that it holds, every child.
pub open spec fn is_closed(snapshots: Seq<ProcessSnapshot>, watched: Set<i32>) -> bool {
    forall|i: int|
        0 <= i < snapshots.len() && watched.contains((#[trigger] snapshots[i]).ppid)
            ==> watched.contains(snapshots[i].pid)
}

/// Whether a set is the smallest one that holds the given processes and, of every process that it
/// holds, every child.
pub open spec fn is_tree_of(
    snapshots: Seq<ProcessSnapshot>,
    roots: Set<i32>,
    tree: Set<i32>,
) -> bool {
    &&& roots.subset_of(tree)
    &&& is_closed(snapshots, tree)
    &&& forall|other: Set<i32>|
        roots.subset_of(other) && #[trigger] is_closed(snapshots, other) ==> tree.subset_of(other)
}

fn holds_pid(pids: &Vec<i32>, pid: i32) -> (r: bool)
    ensures
        r == pids@.contains(pid),
{
    let mut i: usize = 0;
    while i < pids.len()
        invariant
            i <= pids@.len(),
            forall|j: int| 0 <= j < i ==> pids@[j] != pid,
        decreases pids@.len() - i,
    {
        if pids[i] == pid {
            return true;
        }
        i = i + 1;
    }
    false
}

/// The processes of a tree: the watched ones and all their descendants.
pub fn process_tree(watched: Vec<i32>, snapshots: &Vec<ProcessSnapshot>) -> (r: Vec<i32>)
    requires
        watched@.no_duplicates(),
    ensures
        is_tree_of(snapshots@, watched@.to_set(), r@.to_set()),
        r@.no_duplicates(),
{
    let ghost roots = watched@.to_set();
    let mut tree = watched;
    let mut changed = true;
    let ghost all = snapshots@.map_values(|s: ProcessSnapshot| s.pid).to_set();
    let ghost limit = all.union(roots);
    proof {
        snapshots@.map_values(|s: ProcessSnapshot| s.pid).lemma_cardinality_of_set();
        watched@.lemma_cardinality_of_set();
        assert(limit.finite());
    }
    while changed
        invariant
            tree@.no_duplicates(),
            roots.subset_of(tree@.to_set()),
            limit.finite(),
            all == snapshots@.map_values(|s: ProcessSnapshot| s.pid).to_set(),
            limit == all.union(roots),
            tree@.to_set().subset_of(limit),
            !changed ==> is_closed(snapshots@, tree@.to_set()),
            forall|other: Set<i32>|
                roots.subset_of(other) && #[trigger] is_closed(snapshots@, other)
                    ==> tree@.to_set().subset_of(other),
        decreases limit.len() - tree@.len(), (if changed { 1int } else { 0int }),
    {
        let ghost start = tree@;
        changed = false;
        let mut i: usize = 0;
        while i < snapshots.len()
            invariant
                i <= snapshots@.len(),
                tree@.no_duplicates(),
                roots.subset_of(tree@.to_set()),
                limit.finite(),
                all == snapshots@.map_values(|s: ProcessSnapshot| s.pid).to_set(),
                limit == all.union(roots),
                tree@.to_set().subset_of(limit),
                tree@.len() >= start.len(),
                changed ==> tree@.len() > start.len(),
                !changed ==> tree@ == start,
                !changed ==> forall|j: int|
                    0 <= j < i && tree@.to_set().contains((#[trigger] snapshots@[j]).ppid)
                        ==> tree@.to_set().contains(snapshots@[j].pid),
                forall|other: Set<i32>|
                    roots.subset_of(other) && #[trigger] is_closed(snapshots@, other)
                        ==> tree@.to_set().subset_of(other),
            decreases snapshots@.len() - i,
        {
            let snapshot = snapshots[i];
            let ghost before = tree@;
            if holds_pid(&tree, snapshot.ppid) && !holds_pid(&tree, snapshot.pid) {
                tree.push(snapshot.pid);
                changed = true;
                proof {
                    let pid = snapshot.pid;
                    assert(tree@.to_set() =~= before.to_set().insert(pid)) by {
                        assert forall|p: i32| tree@.to_set().contains(p)
                            == before.to_set().insert(pid).contains(p) by {
                            if before.contains(p) {
                                let k = choose|k: int| 0 <= k < before.len() && before[k] == p;
                                assert(tree@[k] == p);
                            }
                            if p == pid {
                                assert(tree@[before.len() as int] == p);
                            }
                            if tree@.contains(p) {
                                let k = choose|k: int| 0 <= k < tree@.len() && tree@[k] == p;
                                if k < before.len() {
                                    assert(before[k] == p);
                                }
                            }
                        }
                    }
                    let pids = snapshots@.map_values(|s: ProcessSnapshot| s.pid);
                    assert(pids[i as int] == pid);
                    assert(all.contains(pid));
                    assert forall|other: Set<i32>|
                        roots.subset_of(other) && #[trigger] is_closed(
                            snapshots@,
                            other,
                        ) implies tree@.to_set().subset_of(other) by {
                        assert(before.to_set().subset_of(other));
                        assert(before.to_set().contains(snapshot.ppid));
                        assert(other.contains(snapshots@[i as int].ppid));
                    }
                }
            }
            i = i + 1;
        }
        proof {
            tree@.unique_seq_to_set();
            vstd::set_lib::lemma_len_subset(tree@.to_set(), limit);
        }
    }
    tree
}

/// A process whose parents, up to a watched process, are all known is in the tree.
pub proof fn law_descendants_are_in_the_tree(
    snapshots: Seq<ProcessSnapshot>,
    roots: Set<i32>,
    tree: Set<i32>,
    line: Seq<int>,
)
    requires
        is_tree_of(snapshots, roots, tree),
        line.len() > 0,
        forall|k: int| 0 <= k < line.len() ==> 0 <= #[trigger] line[k] < snapshots.len(),
        roots.contains(snapshots[line[0]].ppid),
        forall|k: int|
            0 < k < line.len() ==> snapshots[#[trigger] line[k]].ppid == snapshots[line[k - 1]].pid,
    ensures
        tree.contains(snapshots[line.last()].pid),
    decreases line.len(),
{
    let last = snapshots[line.last()];
    if line.len() == 1 {
        assert(tree.contains(last.ppid));
    } else {
        let before = line.drop_last();
        assert forall|k: int| 0 < k < before.len() implies snapshots[#[trigger] before[k]].ppid
            == snapshots[before[k - 1]].pid by {
            assert(line[k] == before[k]);
        }
        law_descendants_are_in_the_tree(snapshots, roots, tree, before);
        assert(line[line.len() - 1] == line.last());
        assert(last.ppid == snapshots[before.last()].pid);
    }
}

/// The processes of a tree that still run.
pub open spec fn alive(snapshots: Seq<ProcessSnapshot>, tree: Set<i32>) -> Seq<ProcessSnapshot>
    decreases snapshots.len(),
{
    if snapshots.len() == 0 {
        Seq::empty()
    } else if tree.contains(snapshots.last().pid) {
        alive(snapshots.drop_last(), tree).push(snapshots.last())
    } else {
        alive(snapshots.drop_last(), tree)
    }
}

/// The memory that processes use.
pub open spec fn memory_used(processes: Seq<ProcessSnapshot>) -> nat
    decreases processes.len(),
{
    if processes.len() == 0 {
        0
    } else {
        memory_used(processes.drop_last()) + processes.last().resident_size as nat
    }
}

/// The processor time that processes have used, in nanoseconds.
pub open spec fn time_used(processes: Seq<ProcessSnapshot>) -> nat
    decreases processes.len(),
{
    if processes.len() == 0 {
        0
    } else {
        time_used(processes.drop_last()) + processes.last().user_time as nat
            + processes.last().system_time as nat
    }
}

pub open spec fn at_most(n: nat, limit: nat) -> nat {
    if n <= limit {
        n
    } else {
        limit
    }
}

/// Whether processes use more than the limits allow. A total that does not fit its counter is
/// counted as the greatest number that does.
pub open spec fn exceeds(processes: Seq<ProcessSnapshot>, limits: ResourceLimits) -> bool {
    ||| at_most(processes.len(), u32::MAX as nat) > limits.processes
    ||| at_most(memory_used(processes), u64::MAX as nat) > limits.memory_bytes
    ||| at_most(time_used(processes), u64::MAX as nat) > saturated_product(
        limits.cpu_time_ms as int,
        1_000_000,
    )
}

/// One round of the watchdog: the processes to track from now on, and whether they use more than
/// they may.
pub fn watch(watched: Vec<i32>, snapshots: &Vec<ProcessSnapshot>, limits: &ResourceLimits) -> (r: (
    Vec<i32>,
    bool,
))
    requires
        watched@.no_duplicates(),
    ensures
        exists|tree: Set<i32>| #[trigger]
            is_tree_of(snapshots@, watched@.to_set(), tree) && r.0@.to_set() == tree.intersect(
                snapshots@.map_values(|s: ProcessSnapshot| s.pid).to_set(),
            ) && r.1 == exceeds(alive(snapshots@, tree), *limits),
        r.0@.no_duplicates(),
{
    let tree = process_tree(watched, snapshots);
    let ghost whole = tree@.to_set();
    let ghost pids = snapshots@.map_values(|s: ProcessSnapshot| s.pid);
    let mut kept: Vec<i32> = Vec::new();
    let mut count: u32 = 0;
    let mut resident: u64 = 0;
    let mut cpu_nanos: u64 = 0;
    let mut i: usize = 0;
    proof {
        assert(snapshots@.take(0) =~= Seq::<ProcessSnapshot>::empty());
        assert(kept@.to_set() =~= whole.intersect(pids.take(0).to_set()));
    }
    while i < snapshots.len()
        invariant
            i <= snapshots@.len(),
            whole == tree@.to_set(),
            pids == snapshots@.map_values(|s: ProcessSnapshot| s.pid),
            kept@.no_duplicates(),
            kept@.to_set() == whole.intersect(pids.take(i as int).to_set()),
            count == at_most(alive(snapshots@.take(i as int), whole).len(), u32::MAX as nat),
            resident == at_most(
                memory_used(alive(snapshots@.take(i as int), whole)),
                u64::MAX as nat,
            ),
            cpu_nanos == at_most(
                time_used(alive(snapshots@.take(i as int), whole)),
                u64::MAX as nat,
            ),
        decreases snapshots@.len() - i,
    {
        let snapshot = snapshots[i];
        let ghost fewer = alive(snapshots@.take(i as int), whole);
        let ghost more = alive(snapshots@.take(i + 1), whole);
        let ghost before = kept@;
        proof {
            assert(snapshots@.take(i + 1).drop_last() =~= snapshots@.take(i as int));
            assert(snapshots@.take(i + 1).last() == snapshot);
        }
        if holds_pid(&tree, snapshot.pid) {
            count = count.saturating_add(1);
            resident = resident.saturating_add(snapshot.resident_size);
            cpu_nanos = cpu_nanos.saturating_add(snapshot.user_time).saturating_add(
                snapshot.system_time,
            );
            if !holds_pid(&kept, snapshot.pid) {
                kept.push(snapshot.pid);
            }
            proof {
                assert(more.drop_last() =~= fewer);
            }
        }
        proof {
            assert forall|p: i32| kept@.to_set().contains(p) == whole.intersect(
                pids.take(i + 1).to_set(),
            ).contains(p) by {
                lemma_take_one_more(pids, i as int, p);
                assert(before.to_set().contains(p) == whole.intersect(
                    pids.take(i as int).to_set(),
                ).contains(p));
                if before.contains(p) {
                    let k = choose|k: int| 0 <= k < before.len() && before[k] == p;
                    assert(kept@[k] == p);
                }
                if kept@.contains(p) {
                    let k = choose|k: int| 0 <= k < kept@.len() && kept@[k] == p;
                    if k < before.len() {
                        assert(before[k] == p);
                    }
                }
                if p == snapshot.pid && whole.contains(p) && !before.contains(p) {
                    assert(kept@[before.len() as int] == p);
                }
            }
            assert(kept@.to_set() =~= whole.intersect(pids.take(i + 1).to_set()));
        }
        i = i + 1;
    }
    proof {
        assert(snapshots@.take(i as int) =~= snapshots@);
        assert(pids.take(i as int) =~= pids);
    }
    let exceeded = count > limits.processes || resident > limits.memory_bytes || cpu_nanos
        > saturating_product(limits.cpu_time_ms, 1_000_000);
    (kept, exceeded)
}

proof fn lemma_take_one_more(pids: Seq<i32>, i: int, p: i32)
    requires
        0 <= i < pids.len(),
    ensures
        pids.take(i + 1).contains(p) <==> pids.take(i).contains(p) || pids[i] == p,
{
    let fewer = pids.take(i);
    let more = pids.take(i + 1);
    if fewer.contains(p) {
        let k = choose|k: int| 0 <= k < fewer.len() && fewer[k] == p;
        assert(more[k] == p);
    }
    if pids[i] == p {
        assert(more[i] == p);
    }
    if more.contains(p) {
        let k = choose|k: int| 0 <= k < more.len() && more[k] == p;
        if k < i {
            assert(fewer[k] == p);
        }
    }
}

/// A profile begins with denying everything; a path more that may be read, or written, adds the rule
/// for that path and nothing else; and a profile that denies the network is the one that does not
/// without the rules at its end that allow it.
pub proof fn law_profile_allows_only_its_paths(
    readable: Seq<Seq<char>>,
    writable: Seq<Seq<char>>,
    path: Seq<char>,
)
    ensures
        "(version 1)\n(deny default)\n"@.is_prefix_of(profile_of(readable, writable, true)),
        profile_of(readable, writable, false) == profile_of(readable, writable, true) + "(allow network*)\n(allow system-socket)\n"@,
        profile_of(readable, writable.push(path), true) == profile_of(readable, writable, true)
            + "(allow file-read* file-write* (subpath \""@ + escaped(path) + "\"))\n"@,
        profile_of(readable.push(path), Seq::empty(), true) == profile_of(
            readable,
            Seq::empty(),
            true,
        ) + "(allow file-read* (subpath \""@ + escaped(path) + "\"))\n(allow file-map-executable (subpath \""@
            + escaped(path) + "\"))\n"@,
{
    let head = profile_head();
    lemma_head_denies();
    reveal_strlit("");
    let denied = profile_of(readable, writable, true);
    assert(denied.subrange(0, "(version 1)\n(deny default)\n"@.len() as int)
        =~= head.subrange(0, "(version 1)\n(deny default)\n"@.len() as int));
    assert(profile_of(readable, writable, false) =~= denied + "(allow network*)\n(allow system-socket)\n"@);
    law_every_path_has_its_rule(
        writable,
        path,
        "(allow file-read* file-write* (subpath \""@,
        ""@,
        "\"))\n"@,
    );
    assert(profile_of(readable, writable.push(path), true) =~= denied
        + "(allow file-read* file-write* (subpath \""@ + escaped(path) + "\"))\n"@);
    law_every_path_has_its_rule(
        readable,
        path,
        "(allow file-read* (subpath \""@,
        "\"))\n(allow file-map-executable (subpath \""@,
        "\"))\n"@,
    );
    assert(profile_of(readable.push(path), Seq::empty(), true) =~= profile_of(
        readable,
        Seq::empty(),
        true,
    ) + "(allow file-read* (subpath \""@ + escaped(path) + "\"))\n(allow file-map-executable (subpath \""@
        + escaped(path) + "\"))\n"@);
}

proof fn lemma_head_denies()
    ensures
        "(version 1)\n(deny default)\n"@.is_prefix_of(profile_head()),
{
    reveal_strlit("(version 1)\n(deny default)\n");
    reveal_strlit("(version 1)\n(deny default)\n(allow process-exec*)\n(allow process-fork)\n(allow process-info* (target self))\n(allow process-info* (target same-sandbox))\n(allow signal (target self))\n(allow signal (target same-sandbox))\n(allow sysctl-read)\n(allow mach-lookup)\n(deny mach-lookup (global-name \"com.apple.SecurityServer\"))\n(deny mach-lookup (global-name \"com.apple.securityd\"))\n(deny mach-lookup (global-name \"com.apple.security.keychaind\"))\n(deny mach-lookup (global-name \"com.apple.secd\"))\n(deny mach-lookup (global-name \"com.apple.security.agent\"))\n(allow mach-per-user-lookup)\n(allow mach-task-name)\n(deny mach-priv*)\n(allow ipc-posix-shm-read-data)\n(allow ipc-posix-shm-write-data)\n(allow ipc-posix-shm-write-create)\n(allow system-fsctl)\n(allow system-info)\n(allow file-read-metadata)\n(allow file-read* (literal \"/\"))\n");
    let head = profile_head();
    assert(head.subrange(0, "(version 1)\n(deny default)\n"@.len() as int)
        =~= "(version 1)\n(deny default)\n"@);
}

/// A process more uses its memory and its time, in user and in system mode, besides the others'.
pub proof fn law_every_process_is_counted(processes: Seq<ProcessSnapshot>, more: ProcessSnapshot)
    ensures
        memory_used(Seq::empty()) == 0 && time_used(Seq::empty()) == 0,
        memory_used(processes.push(more)) == memory_used(processes) + more.resident_size,
        time_used(processes.push(more)) == time_used(processes) + more.user_time
            + more.system_time,
{
    assert(processes.push(more).drop_last() =~= processes);
}

/// Processes use too much exactly where they are too many, or use more memory together, or more
/// time together, a millisecond being a million nanoseconds.
pub proof fn law_too_much_is_used(processes: Seq<ProcessSnapshot>, limits: ResourceLimits)
    requires
        processes.len() <= u32::MAX,
        memory_used(processes) <= u64::MAX,
        time_used(processes) <= u64::MAX,
    ensures
        exceeds(processes, limits) <==> processes.len() > limits.processes || memory_used(processes)
            > limits.memory_bytes || time_used(processes) > limits.cpu_time_ms * 1_000_000,
{
    assert(limits.cpu_time_ms * 1_000_000 == 1_000_000 * limits.cpu_time_ms);
}

/// Of the processes that run, those of the tree are counted, each of them, and no others.
pub proof fn law_running_processes_of_the_tree(
    snapshots: Seq<ProcessSnapshot>,
    tree: Set<i32>,
    process: ProcessSnapshot,
)
    ensures
        alive(snapshots, tree).contains(process) <==> snapshots.contains(process) && tree.contains(
            process.pid,
        ),
    decreases snapshots.len(),
{
    if snapshots.len() > 0 {
        let fewer = snapshots.drop_last();
        let before = alive(fewer, tree);
        let last = snapshots.last();
        law_running_processes_of_the_tree(fewer, tree, process);
        assert(snapshots.contains(process) <==> fewer.contains(process) || process == last) by {
            if snapshots.contains(process) {
                let p = choose|p: int| 0 <= p < snapshots.len() && snapshots[p] == process;
                if p < fewer.len() {
                    assert(fewer[p] == process);
                }
            }
            if fewer.contains(process) {
                let p = choose|p: int| 0 <= p < fewer.len() && fewer[p] == process;
                assert(snapshots[p] == process);
            }
            assert(snapshots[snapshots.len() - 1] == last);
        }
        let more = before.push(last);
        assert(more.contains(process) <==> before.contains(process) || process == last) by {
            if more.contains(process) {
                let p = choose|p: int| 0 <= p < more.len() && more[p] == process;
                if p < before.len() {
                    assert(before[p] == process);
                }
            }
            if before.contains(process) {
                let p = choose|p: int| 0 <= p < before.len() && before[p] == process;
                assert(more[p] == process);
            }
            assert(more[before.len() as int] == last);
        }
    }
}

} // verus!
