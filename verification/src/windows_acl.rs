//! Windows access control: which changes grant and revoke a mount, and which trees may be granted.
use vstd::prelude::*;
use vstd::string::*;

use crate::error::{
    failure, first_fault, lemma_all_passed, lemma_first_fault_at, lemma_no_fault, Fault,
    SandboxError,
};
use crate::path::{windows_path_within, within};
use crate::policy::{is_reparse, is_reparse_point};
use crate::text::{
    concat, concat3, law_trimming_cuts_the_back, law_trimming_cuts_the_front, trim_end, trim_start_either, trimmed_end, trimmed_start,
};

verus! {

/// Entries are inherited by files and directories below.
pub const INHERIT_CHILDREN: u32 = 0x3;

/// The status with which the system refuses access.
pub const ERROR_ACCESS_DENIED: u32 = 5;

/// One change of the access list of an object: the access that a package gets, or none.
#[derive(Debug, Clone, PartialEq, Eq)]
pub struct AclChange {
    pub path: String,
    pub access: Option<u32>,
    pub inheritance: u32,
}

/// How an entry is merged into an access list.
#[derive(Debug, Clone, Copy, PartialEq, Eq, Structural)]
pub enum AclMode {
    Grant,
    Replace,
    Revoke,
}

/// Another name of a file, and the canonical path of it, or why there is none.
#[derive(Debug)]
pub struct AliasFacts {
    pub path: String,
    pub canonical: Result<String, String>,
}

/// What is known of the names of a file.
#[derive(Debug)]
pub enum LinkFacts {
    /// They could not be listed.
    Unknown(SandboxError),
    /// How many names the file has, and, where it has several, all of them.
    Counted { count: u32, aliases: Vec<AliasFacts> },
}

/// An object of a tree.
#[derive(Debug)]
pub struct TreeEntry {
    pub path: String,
    pub attributes: u32,
    pub is_file: bool,
    pub is_dir: bool,
    /// The canonical path, or why there is none. Only read of a reparse point.
    pub target: Result<String, String>,
    /// Only read of a file.
    pub links: LinkFacts,
}

/// What the walk through a tree met at one place.
#[derive(Debug)]
pub enum EntryFacts {
    Unreadable(String),
    NoMetadata(String),
    Found(TreeEntry),
}

/// A tree, as a walk that follows no links sees it.
#[derive(Debug)]
pub struct TreeFacts {
    /// The canonical path of the root, or why there is none.
    pub canonical: Result<String, String>,
    pub entries: Vec<EntryFacts>,
}

pub open spec fn alias_fault(path: Seq<char>, root: Seq<char>, alias: AliasFacts) -> Option<Fault> {
    match alias.canonical {
        Err(reason) => Some(
            Fault::CapabilityUnavailable(
                "cannot resolve mount hard-link alias "@ + alias.path@ + ": "@ + reason@,
            ),
        ),
        Ok(canonical) => if within(root, canonical@) {
            None
        } else {
            Some(
                Fault::CapabilityUnavailable(
                    "mount contains a hard-link alias outside its boundary: "@ + path,
                ),
            )
        },
    }
}

/// Why a file is refused for its names.
pub open spec fn links_fault(path: Seq<char>, root: Seq<char>, links: LinkFacts) -> Option<Fault> {
    match links {
        LinkFacts::Unknown(error) => Some(error@),
        LinkFacts::Counted { count, aliases } => if count <= 1 {
            None
        } else {
            first_fault(aliases@.map_values(|alias: AliasFacts| alias_fault(path, root, alias)))
        },
    }
}

/// Why a reparse point is refused for what it leads to.
pub open spec fn target_fault(
    path: Seq<char>,
    root: Seq<char>,
    target: Result<String, String>,
) -> Option<Fault> {
    match target {
        Err(reason) => Some(
            Fault::CapabilityUnavailable(
                "cannot resolve mount reparse target "@ + path + ": "@ + reason@,
            ),
        ),
        Ok(canonical) => if within(root, canonical@) {
            None
        } else {
            Some(
                Fault::CapabilityUnavailable(
                    "mount contains a reparse target outside its boundary: "@ + path,
                ),
            )
        },
    }
}

pub open spec fn entry_fault(
    root: Seq<char>,
    entry: EntryFacts,
    reject_aliases: bool,
) -> Option<Fault> {
    match entry {
        EntryFacts::Unreadable(reason) => Some(
            Fault::CapabilityUnavailable("cannot inspect mount before ACL lease: "@ + reason@),
        ),
        EntryFacts::NoMetadata(reason) => Some(
            Fault::CapabilityUnavailable(
                "cannot inspect mount object before ACL lease: "@ + reason@,
            ),
        ),
        EntryFacts::Found(found) => if reject_aliases && is_reparse(found.attributes)
            && target_fault(found.path@, root, found.target) is Some {
            target_fault(found.path@, root, found.target)
        } else if reject_aliases && found.is_file {
            links_fault(found.path@, root, found.links)
        } else {
            None
        },
    }
}

/// Why a tree is refused: the first object, in the order of the walk, that is.
pub open spec fn tree_fault(tree: TreeFacts, reject_aliases: bool) -> Option<Fault> {
    match tree.canonical {
        Err(reason) => Some(
            Fault::CapabilityUnavailable("cannot resolve mount before ACL lease: "@ + reason@),
        ),
        Ok(root) => first_fault(
            tree.entries@.map_values(|e: EntryFacts| entry_fault(root@, e, reject_aliases)),
        ),
    }
}

/// The objects that the walk found, in order, each with whether it is a directory.
pub open spec fn found_objects(entries: Seq<EntryFacts>) -> Seq<(Seq<char>, bool)> {
    entries.map_values(
        |e: EntryFacts|
            match e {
                EntryFacts::Found(found) => (found.path@, found.is_dir),
                EntryFacts::Unreadable(reason) => (reason@, false),
                EntryFacts::NoMetadata(reason) => (reason@, false),
            },
    )
}

pub open spec fn object_views(objects: Seq<(String, bool)>) -> Seq<(Seq<char>, bool)> {
    objects.map_values(|o: (String, bool)| (o.0@, o.1))
}

fn unavailable(message: String) -> (r: SandboxError)
    ensures
        r@ == Fault::CapabilityUnavailable(message@),
{
    SandboxError::CapabilityUnavailable(message)
}

/// Whether a file may keep its names.
fn check_links(path: &str, root: &str, links: &LinkFacts) -> (r: Result<(), SandboxError>)
    ensures
        failure(r) == links_fault(path@, root@, *links),
{
    match links {
        LinkFacts::Unknown(error) => Err(error.clone()),
        LinkFacts::Counted { count, aliases } => {
            if *count <= 1 {
                return Ok(());
            }
            check_aliases(path, root, aliases)
        },
    }
}

fn check_aliases(path: &str, root: &str, aliases: &Vec<AliasFacts>) -> (r: Result<
    (),
    SandboxError,
>)
    ensures
        failure(r) == first_fault(
            aliases@.map_values(|alias: AliasFacts| alias_fault(path@, root@, alias)),
        ),
{
    let ghost faults = aliases@.map_values(|alias: AliasFacts| alias_fault(path@, root@, alias));
    let mut i: usize = 0;
    while i < aliases.len()
        invariant
            i <= aliases@.len(),
            faults == aliases@.map_values(|alias: AliasFacts| alias_fault(path@, root@, alias)),
            forall|j: int| 0 <= j < i ==> faults[j] is None,
        decreases aliases@.len() - i,
    {
        let alias = &aliases[i];
        match &alias.canonical {
            Err(reason) => {
                proof {
                    lemma_first_fault_at(faults, i as int);
                }
                return Err(
                    unavailable(
                        concat3(
                            &concat("cannot resolve mount hard-link alias ", &alias.path),
                            ": ",
                            reason,
                        ),
                    ),
                );
            },
            Ok(canonical) => {
                if !windows_path_within(root, canonical) {
                    proof {
                        lemma_first_fault_at(faults, i as int);
                    }
                    return Err(
                        unavailable(
                            concat("mount contains a hard-link alias outside its boundary: ", path),
                        ),
                    );
                }
            },
        }
        i = i + 1;
    }
    proof {
        lemma_no_fault(faults);
    }
    Ok(())
}

fn check_target(path: &str, root: &str, target: &Result<String, String>) -> (r: Result<
    (),
    SandboxError,
>)
    ensures
        failure(r) == target_fault(path@, root@, *target),
{
    match target {
        Err(reason) => Err(
            unavailable(
                concat3(&concat("cannot resolve mount reparse target ", path), ": ", reason),
            ),
        ),
        Ok(canonical) => {
            if windows_path_within(root, canonical) {
                Ok(())
            } else {
                Err(
                    unavailable(
                        concat("mount contains a reparse target outside its boundary: ", path),
                    ),
                )
            }
        },
    }
}

fn check_entry(root: &str, entry: &EntryFacts, reject_aliases: bool) -> (r: Result<
    (String, bool),
    SandboxError,
>)
    ensures
        failure(r) == entry_fault(root@, *entry, reject_aliases),
        r matches Ok(object) ==> (entry matches EntryFacts::Found(found) && object.0@ == found.path@
            && object.1 == found.is_dir),
{
    match entry {
        EntryFacts::Unreadable(reason) => Err(
            unavailable(concat("cannot inspect mount before ACL lease: ", reason)),
        ),
        EntryFacts::NoMetadata(reason) => Err(
            unavailable(concat("cannot inspect mount object before ACL lease: ", reason)),
        ),
        EntryFacts::Found(found) => {
            if reject_aliases && is_reparse_point(found.attributes) {
                match check_target(&found.path, root, &found.target) {
                    Ok(()) => {},
                    Err(error) => {
                        return Err(error);
                    },
                }
            }
            if reject_aliases && found.is_file {
                match check_links(&found.path, root, &found.links) {
                    Ok(()) => {},
                    Err(error) => {
                        return Err(error);
                    },
                }
            }
            Ok((found.path.clone(), found.is_dir))
        },
    }
}

/// The objects of a tree. With `reject_aliases`, a tree is refused that can be left, or entered,
/// through a reparse point or another name of a file.
pub fn checked_tree(tree: &TreeFacts, reject_aliases: bool) -> (r: Result<
    Vec<(String, bool)>,
    SandboxError,
>)
    ensures
        failure(r) == tree_fault(*tree, reject_aliases),
        r matches Ok(objects) ==> object_views(objects@) == found_objects(tree.entries@),
{
    let root = match &tree.canonical {
        Ok(root) => root,
        Err(reason) => {
            return Err(unavailable(concat("cannot resolve mount before ACL lease: ", reason)));
        },
    };
    let ghost faults = tree.entries@.map_values(
        |e: EntryFacts| entry_fault(root@, e, reject_aliases),
    );
    let mut objects: Vec<(String, bool)> = Vec::new();
    let mut i: usize = 0;
    while i < tree.entries.len()
        invariant
            i <= tree.entries@.len(),
            tree.canonical == Ok::<String, String>(*root),
            faults == tree.entries@.map_values(
                |e: EntryFacts| entry_fault(root@, e, reject_aliases),
            ),
            forall|j: int| 0 <= j < i ==> faults[j] is None,
            object_views(objects@) == found_objects(tree.entries@).take(i as int),
        decreases tree.entries@.len() - i,
    {
        let ghost before = object_views(objects@);
        match check_entry(root, &tree.entries[i], reject_aliases) {
            Ok(object) => {
                objects.push(object);
                proof {
                    assert(object_views(objects@) =~= before.push((object.0@, object.1)));
                    assert(object_views(objects@) =~= found_objects(tree.entries@).take(i + 1));
                }
            },
            Err(error) => {
                proof {
                    lemma_first_fault_at(faults, i as int);
                }
                return Err(error);
            },
        }
        i = i + 1;
    }
    proof {
        lemma_no_fault(faults);
        assert(found_objects(tree.entries@).take(i as int) =~= found_objects(tree.entries@));
    }
    Ok(objects)
}

/// Whether a change grants a root, so that everything below inherits it.
pub open spec fn grants(change: AclChange, root: Seq<char>, access: u32) -> bool {
    &&& change.path@ == root
    &&& change.access == Some(access)
    &&& change.inheritance == INHERIT_CHILDREN
}

/// Whether a change revokes what was granted of an object.
pub open spec fn revokes(change: AclChange, path: Seq<char>) -> bool {
    &&& change.path@ == path
    &&& change.access is None
    &&& change.inheritance == 0
}

/// The change that grants a root, from which everything below inherits.
pub fn grant_root(root: &str, access: u32) -> (r: AclChange)
    ensures
        grants(r, root@, access),
{
    AclChange { path: root.to_owned(), access: Some(access), inheritance: INHERIT_CHILDREN }
}

/// The change that grants a tree, which must be closed under links.
pub fn grant_tree(root: &str, access: u32, tree: &TreeFacts) -> (r: Result<AclChange, SandboxError>)
    ensures
        failure(r) == tree_fault(*tree, true),
        r matches Ok(change) ==> grants(change, root@, access),
{
    match checked_tree(tree, true) {
        Ok(_) => Ok(grant_root(root, access)),
        Err(error) => Err(error),
    }
}

fn revoke(path: &str) -> (r: AclChange)
    ensures
        revokes(r, path@),
{
    AclChange { path: path.to_owned(), access: None, inheritance: 0 }
}

/// The change that revokes a root; none where it is gone.
pub fn revoke_root(root: &str, exists_on_host: bool) -> (r: Option<AclChange>)
    ensures
        match r {
            Some(change) => exists_on_host && revokes(change, root@),
            None => !exists_on_host,
        },
{
    if exists_on_host {
        Some(revoke(root))
    } else {
        None
    }
}

/// The changes that revoke every object of a tree; none where it is gone.
pub fn revoke_tree(tree: &TreeFacts, exists_on_host: bool) -> (r: Result<
    Vec<AclChange>,
    SandboxError,
>)
    ensures
        failure(r) == if exists_on_host {
            tree_fault(*tree, false)
        } else {
            None
        },
        r matches Ok(changes) ==> if exists_on_host {
            &&& changes@.len() == tree.entries@.len()
            &&& forall|i: int|
                0 <= i < changes@.len() ==> revokes(
                    #[trigger] changes@[i],
                    found_objects(tree.entries@)[i].0,
                )
        } else {
            changes@.len() == 0
        },
{
    let mut changes: Vec<AclChange> = Vec::new();
    if !exists_on_host {
        return Ok(changes);
    }
    let objects = match checked_tree(tree, false) {
        Ok(objects) => objects,
        Err(error) => {
            return Err(error);
        },
    };
    let mut i: usize = 0;
    while i < objects.len()
        invariant
            i <= objects@.len(),
            changes@.len() == i,
            object_views(objects@) == found_objects(tree.entries@),
            forall|j: int|
                0 <= j < i ==> revokes(
                    #[trigger] changes@[j],
                    found_objects(tree.entries@)[j].0,
                ),
        decreases objects@.len() - i,
    {
        assert(object_views(objects@)[i as int].0 == objects@[i as int].0@);
        changes.push(revoke(&objects[i].0));
        i = i + 1;
    }
    assert(object_views(objects@).len() == objects@.len());
    Ok(changes)
}

/// In a tree that may be granted, every reparse point leads to a place within it, and every other
/// name of a file is within it.
pub proof fn law_granted_tree_is_closed(tree: TreeFacts)
    requires
        tree_fault(tree, true) is None,
    ensures
        tree.canonical is Ok,
        forall|i: int|
            0 <= i < tree.entries@.len() ==> (#[trigger] tree.entries@[i] matches EntryFacts::Found(
                found,
            ) && {
                &&& is_reparse(found.attributes) ==> (found.target matches Ok(target) && within(
                    tree.canonical->Ok_0@,
                    target@,
                ))
                &&& found.is_file ==> (found.links matches LinkFacts::Counted { count, aliases }
                    && (count > 1 ==> forall|k: int|
                    0 <= k < aliases@.len() ==> ((#[trigger] aliases@[k]).canonical matches Ok(
                        alias,
                    ) && within(tree.canonical->Ok_0@, alias@))))
            }),
{
    let root = tree.canonical->Ok_0@;
    let faults = tree.entries@.map_values(|e: EntryFacts| entry_fault(root, e, true));
    assert forall|i: int| 0 <= i < tree.entries@.len() implies (
    #[trigger] tree.entries@[i] matches EntryFacts::Found(found) && {
        &&& is_reparse(found.attributes) ==> (found.target matches Ok(target) && within(
            root,
            target@,
        ))
        &&& found.is_file ==> (found.links matches LinkFacts::Counted { count, aliases } && (count
            > 1 ==> forall|k: int|
            0 <= k < aliases@.len() ==> ((#[trigger] aliases@[k]).canonical matches Ok(alias)
                && within(root, alias@))))
    }) by {
        lemma_all_passed(faults, i);
        let found = tree.entries@[i]->Found_0;
        if found.is_file {
            match found.links {
                LinkFacts::Counted { count, aliases } => {
                    if count > 1 {
                        let inner = aliases@.map_values(
                            |alias: AliasFacts| alias_fault(found.path@, root, alias),
                        );
                        assert forall|k: int| 0 <= k < aliases@.len() implies (
                        (#[trigger] aliases@[k]).canonical matches Ok(alias) && within(
                            root,
                            alias@,
                        )) by {
                            lemma_all_passed(inner, k);
                        }
                    }
                },
                LinkFacts::Unknown(_) => {},
            }
        }
    }
}

/// How a change is merged.
pub open spec fn mode_of(access: Option<u32>, list_present: bool) -> AclMode {
    match access {
        Some(_) => if list_present {
            AclMode::Replace
        } else {
            AclMode::Grant
        },
        None => AclMode::Revoke,
    }
}

/// The entries of an access list that allow something: for each account or package its rights, and
/// which objects below inherit them.
pub type AccessEntries = Map<Seq<char>, (u32, u32)>;

/// The entries after a change of an object that has a list, for one account or package: an entry
/// that is set is the only one for it, one that is revoked is gone, and no other is touched.
pub open spec fn changed(
    entries: AccessEntries,
    sid: Seq<char>,
    change: AclChange,
) -> AccessEntries {
    match (mode_of(change.access, true), change.access) {
        (AclMode::Replace, Some(access)) => entries.insert(sid, (access, change.inheritance)),
        _ => entries.remove(sid),
    }
}

/// Revoking a root undoes granting it: an account or package that had no entry of its own has none
/// again, whatever was granted to it and however often, and every other entry is as it was at any
/// time. Revoking once more changes nothing.
pub proof fn law_revoking_undoes_granting(
    entries: AccessEntries,
    sid: Seq<char>,
    root: Seq<char>,
    access: u32,
    grant: AclChange,
    again: AclChange,
    revocation: AclChange,
)
    requires
        !entries.contains_key(sid),
        grants(grant, root, access),
        again.access is Some,
        revokes(revocation, root),
    ensures
        changed(entries, sid, grant) == entries.insert(sid, (access, INHERIT_CHILDREN)),
        changed(changed(entries, sid, grant), sid, revocation) == entries,
        changed(changed(changed(entries, sid, grant), sid, again), sid, revocation) == entries,
        changed(entries, sid, revocation) == entries,
{
    assert(changed(changed(entries, sid, grant), sid, revocation) =~= entries);
    assert(changed(changed(changed(entries, sid, grant), sid, again), sid, revocation)
        =~= entries);
    assert(changed(entries, sid, revocation) =~= entries);
}

/// How a change is merged: access is set, or granted where there is no list yet, or revoked.
pub fn acl_mode(access: Option<u32>, list_present: bool) -> (r: AclMode)
    ensures
        r == mode_of(access, list_present),
{
    match access {
        Some(_) => if list_present {
            AclMode::Replace
        } else {
            AclMode::Grant
        },
        None => AclMode::Revoke,
    }
}

/// Whether the effective rights already are what a change asks for.
pub open spec fn rights_suffice(effective: u32, requested: Option<u32>) -> bool {
    match requested {
        Some(required) => effective & required == required,
        None => effective == 0,
    }
}

/// Whether the list that is there has the effect that is asked for. Without a list it has not.
pub fn effective_rights_match(
    list_present: bool,
    effective: &Result<u32, String>,
    requested: Option<u32>,
) -> (r: Result<bool, SandboxError>)
    ensures
        match r {
            Ok(matching) => if list_present {
                effective matches Ok(rights) && matching == rights_suffice(*rights, requested)
            } else {
                !matching
            },
            Err(e) => list_present && (effective matches Err(reason) && e@
                == Fault::CapabilityUnavailable(
                "cannot validate inherited mount ACL rights: "@ + reason@,
            )),
        },
{
    if !list_present {
        return Ok(false);
    }
    match effective {
        Err(reason) => Err(
            unavailable(concat("cannot validate inherited mount ACL rights: ", reason)),
        ),
        Ok(rights) => Ok(
            match requested {
                Some(required) => *rights & required == required,
                None => *rights == 0,
            },
        ),
    }
}

/// What an attempt to write an access list amounts to.
pub open spec fn update_fault(
    change: AclChange,
    status: u32,
    status_text: Seq<char>,
    list_present: bool,
    effective: Result<u32, String>,
) -> Option<Fault> {
    let failed = Some(
        Fault::CapabilityUnavailable(
            "cannot update mount ACL for "@ + change.path@ + ": "@ + status_text,
        ),
    );
    if status == 0 {
        None
    } else if status != ERROR_ACCESS_DENIED || !list_present {
        failed
    } else {
        match effective {
            Err(reason) => Some(
                Fault::CapabilityUnavailable(
                    "cannot validate inherited mount ACL rights: "@ + reason@,
                ),
            ),
            Ok(rights) => if rights_suffice(rights, change.access) {
                None
            } else {
                failed
            },
        }
    }
}

/// Whether a change is in effect, given the status of the write. A refused write is no failure
/// where the rights are already as they should be.
pub fn update_outcome(
    change: &AclChange,
    status: u32,
    status_text: &str,
    list_present: bool,
    effective: &Result<u32, String>,
) -> (r: Result<(), SandboxError>)
    ensures
        failure(r) == update_fault(*change, status, status_text@, list_present, *effective),
{
    if status == ERROR_ACCESS_DENIED {
        match effective_rights_match(list_present, effective, change.access) {
            Ok(true) => {
                return Ok(());
            },
            Ok(false) => {},
            Err(error) => {
                return Err(error);
            },
        }
    }
    if status != 0 {
        return Err(
            unavailable(
                concat3(&concat("cannot update mount ACL for ", &change.path), ": ", status_text),
            ),
        );
    }
    Ok(())
}

/// The text that UTF-16 code units stand for, as `String::from_utf16_lossy` decodes them.
pub uninterp spec fn utf16_text(units: Seq<u16>) -> Seq<char>;

/// `String::from_utf16_lossy`: the text that the code units stand for, with a replacement character
/// in place of units that stand for nothing; a function of the units alone.
#[verifier::external_body]
fn decode_utf16(units: &[u16]) -> (r: String)
    ensures
        r@ == utf16_text(units@),
{
    String::from_utf16_lossy(units)
}

/// The name in a text as the system returns it: without the zeros that end it and without the
/// separators that it begins with.
pub open spec fn bare_link_name(text: Seq<char>) -> Seq<char> {
    trimmed_start(trimmed_end(text, |c: char| c == '\0'), |c: char| c == '\\' || c == '/')
}

/// The name in a text as the system returns it.
pub fn trim_link_name(text: &str) -> (r: String)
    ensures
        r@ == bare_link_name(text@),
{
    trim_start_either(&trim_end(text, '\0'), '\\', '/')
}

/// The name in a buffer of which the system says how much of it is used.
pub fn link_name(buffer: &Vec<u16>, length: u32) -> (r: String)
    ensures
        r@ == bare_link_name(
            utf16_text(
                buffer@.take(
                    if length <= buffer@.len() {
                        length as int
                    } else {
                        buffer@.len() as int
                    },
                ),
            ),
        ),
{
    let used: usize = if length as u64 <= buffer.len() as u64 {
        length as usize
    } else {
        buffer.len()
    };
    let mut units: Vec<u16> = Vec::new();
    let mut i: usize = 0;
    while i < used
        invariant
            i <= used <= buffer@.len(),
            units@ == buffer@.take(i as int),
        decreases used - i,
    {
        units.push(buffer[i]);
        assert(units@ =~= buffer@.take(i + 1));
        i = i + 1;
    }
    trim_link_name(&decode_utf16(&units))
}

/// What a Windows path begins with.
#[derive(Debug, Clone, PartialEq, Eq)]
pub enum VolumePrefix {
    Disk(u8),
    VerbatimDisk(u8),
    Unc(String, String),
    VerbatimUnc(String, String),
    Other,
}

/// The root of the volume that a path is on.
pub open spec fn volume_of(prefix: VolumePrefix) -> Option<Seq<char>> {
    match prefix {
        VolumePrefix::Disk(letter) => Some(seq![letter as char] + r":\"@),
        VolumePrefix::VerbatimDisk(letter) => Some(seq![letter as char] + r":\"@),
        VolumePrefix::Unc(server, share) => Some(r"\\"@ + server@ + r"\"@ + share@),
        VolumePrefix::VerbatimUnc(server, share) => Some(r"\\"@ + server@ + r"\"@ + share@),
        VolumePrefix::Other => None,
    }
}

/// The root of the volume that a path is on, given what the path begins with.
pub fn volume_root(prefix: &Option<VolumePrefix>) -> (r: Result<String, SandboxError>)
    ensures
        match prefix {
            None => failure(r) == Some(
                Fault::CapabilityUnavailable(
                    "cannot determine mount volume for hard-link validation"@,
                ),
            ),
            Some(found) => match volume_of(*found) {
                Some(root) => r matches Ok(path) && path@ == root,
                None => failure(r) == Some(
                    Fault::CapabilityUnavailable(
                        "unsupported mount volume for hard-link validation"@,
                    ),
                ),
            },
        },
{
    match prefix {
        None => Err(
            SandboxError::capability_unavailable(
                "cannot determine mount volume for hard-link validation",
            ),
        ),
        Some(VolumePrefix::Disk(letter)) => Ok(disk_root(*letter)),
        Some(VolumePrefix::VerbatimDisk(letter)) => Ok(disk_root(*letter)),
        Some(VolumePrefix::Unc(server, share)) => Ok(share_root(server, share)),
        Some(VolumePrefix::VerbatimUnc(server, share)) => Ok(share_root(server, share)),
        Some(VolumePrefix::Other) => Err(
            SandboxError::capability_unavailable(
                "unsupported mount volume for hard-link validation",
            ),
        ),
    }
}

fn disk_root(letter: u8) -> (r: String)
    ensures
        r@ == seq![letter as char] + r":\"@,
{
    let mut root = String::new();
    root.push(letter as char);
    root.append(r":\");
    assert(root@ =~= seq![letter as char] + r":\"@);
    root
}

fn share_root(server: &str, share: &str) -> (r: String)
    ensures
        r@ == r"\\"@ + server@ + r"\"@ + share@,
{
    concat3(&concat(r"\\", server), r"\", share)
}

/// A tree is granted in every case in which it is closed: all of it can be seen, every reparse
/// point leads to a place within it, and every other name of a file is within it. Where aliases are
/// not looked at, it is enough that all of it can be seen.
pub proof fn law_closed_tree_is_granted(tree: TreeFacts, reject_aliases: bool)
    requires
        tree.canonical is Ok,
        forall|i: int| 0 <= i < tree.entries@.len() ==> (#[trigger] tree.entries@[i]) is Found,
        reject_aliases ==> forall|i: int|
            0 <= i < tree.entries@.len() ==> {
                let found = (#[trigger] tree.entries@[i])->Found_0;
                let root = tree.canonical->Ok_0@;
                &&& is_reparse(found.attributes) ==> found.target is Ok && within(
                    root,
                    found.target->Ok_0@,
                )
                &&& found.is_file ==> found.links is Counted && (found.links->count <= 1
                    || forall|k: int|
                    0 <= k < found.links->aliases@.len() ==> (
                    #[trigger] found.links->aliases@[k]).canonical is Ok && within(
                        root,
                        found.links->aliases@[k].canonical->Ok_0@,
                    ))
            },
    ensures
        tree_fault(tree, reject_aliases) is None,
{
    let root = tree.canonical->Ok_0@;
    let faults = tree.entries@.map_values(|e: EntryFacts| entry_fault(root, e, reject_aliases));
    assert forall|i: int| 0 <= i < faults.len() implies (#[trigger] faults[i]) is None by {
        let found = tree.entries@[i]->Found_0;
        assert(tree.entries@[i] is Found);
        if reject_aliases && found.is_file {
            match found.links {
                LinkFacts::Counted { count, aliases } => {
                    if count > 1 {
                        let inner = aliases@.map_values(
                            |alias: AliasFacts| alias_fault(found.path@, root, alias),
                        );
                        assert forall|k: int| 0 <= k < inner.len() implies (
                        #[trigger] inner[k]) is None by {
                            assert(aliases@[k].canonical is Ok);
                        }
                        lemma_no_fault(inner);
                    }
                },
                LinkFacts::Unknown(_) => {},
            }
        }
    }
    lemma_no_fault(faults);
}

/// Rights suffice exactly where no right that is asked for is missing; and where none is to be left,
/// only none suffices.
pub proof fn law_no_right_is_missing(effective: u32, requested: u32, right: u32)
    ensures
        rights_suffice(effective, Some(requested)) <==> requested & !effective == 0,
        rights_suffice(effective, Some(requested)) && requested & right == right ==> effective
            & right == right,
        rights_suffice(effective, Some(effective)),
        rights_suffice(effective, None) <==> effective == 0,
{
    assert((effective & requested == requested) <==> (requested & !effective == 0u32))
        by (bit_vector);
    assert((effective & requested == requested && requested & right == right) ==> (effective
        & right == right)) by (bit_vector);
    assert(effective & effective == effective) by (bit_vector);
}

/// A change is in effect exactly where it was written, or where the write was refused for want of
/// access and the list that is there already gives what is asked for.
pub proof fn law_change_in_effect(
    change: AclChange,
    status: u32,
    status_text: Seq<char>,
    list_present: bool,
    effective: Result<u32, String>,
)
    ensures
        update_fault(change, status, status_text, list_present, effective) is None <==> status == 0
            || status == 5 && list_present && (effective matches Ok(rights) && match change.access {
            Some(required) => required & !rights == 0,
            None => rights == 0,
        }),
{
    if let (Ok(rights), Some(required)) = (effective, change.access) {
        law_no_right_is_missing(rights, required, 0);
    }
}

/// What is granted is inherited by everything below, replaces what was there, and what is revoked
/// is nothing but the entry.
pub proof fn law_changes_are_merged(
    change: AclChange,
    root: Seq<char>,
    access: u32,
    list_present: bool,
)
    ensures
        grants(change, root, access) ==> change.inheritance == 3 && change.path@ == root
            && mode_of(change.access, list_present) == if list_present {
            AclMode::Replace
        } else {
            AclMode::Grant
        },
        revokes(change, root) ==> change.inheritance == 0 && change.path@ == root && mode_of(
            change.access,
            list_present,
        ) == AclMode::Revoke,
{
}

/// The name of a link loses nothing but the separators at its front and the zeros at its end.
pub proof fn law_link_name_is_trimmed(name: Seq<char>, front: Seq<char>, back: Seq<char>)
    requires
        name.len() > 0,
        name[0] != '\\' && name[0] != '/',
        name.last() != '\0',
        forall|i: int| 0 <= i < front.len() ==> front[i] == '\\' || front[i] == '/',
        forall|i: int| 0 <= i < back.len() ==> back[i] == '\0',
    ensures
        bare_link_name(front + name + back) == name,
{
    let zero = |c: char| c == '\0';
    let slash = |c: char| c == '\\' || c == '/';
    let whole = front + name + back;
    let kept = law_trimming_cuts_the_back(whole, zero);
    assert(whole[front.len() + name.len() - 1] == name.last());
    assert(kept >= front.len() + name.len());
    if kept > front.len() + name.len() {
        assert(whole[kept - 1] == back[kept - 1 - front.len() - name.len()]);
    }
    let middle = trimmed_end(whole, zero);
    assert(middle =~= front + name);
    let cut = law_trimming_cuts_the_front(middle, slash);
    assert(middle[front.len() as int] == name[0]);
    assert(cut <= front.len());
    if cut < front.len() {
        assert(middle[cut] == front[cut]);
    }
    assert(middle.skip(cut) =~= name);
}

/// The root of a volume is the same for a path in verbatim form as for one that is not: the letter
/// of the drive with a colon and a backslash, or the server and the share.
pub proof fn law_volume_roots(letter: u8, server: String, share: String)
    ensures
        volume_of(VolumePrefix::Disk(letter)) == Some(seq![letter as char, ':', '\\']),
        volume_of(VolumePrefix::VerbatimDisk(letter)) == Some(seq![letter as char, ':', '\\']),
        volume_of(VolumePrefix::Unc(server, share)) == Some(
            seq!['\\', '\\'] + server@ + seq!['\\'] + share@,
        ),
        volume_of(VolumePrefix::VerbatimUnc(server, share)) == Some(
            seq!['\\', '\\'] + server@ + seq!['\\'] + share@,
        ),
        volume_of(VolumePrefix::Other) is None,
{
    reveal_strlit(r":\");
    reveal_strlit(r"\\");
    reveal_strlit(r"\");
    assert(seq![letter as char] + r":\"@ =~= seq![letter as char, ':', '\\']);
    assert(r"\\"@ =~= seq!['\\', '\\']);
    assert(r"\"@ =~= seq!['\\']);
}

} // verus!
