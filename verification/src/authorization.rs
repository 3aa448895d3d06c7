//! Persistent authorizations: how they are named, recorded, checked and retired.
use vstd::prelude::*;
use vstd::string::*;
use vstd::utf8::*;

use crate::digest::{
    digest_text, fingerprint, fingerprint_of, hex_text, is_digest_text, sha256,
};
use crate::error::{failure, Fault, SandboxError};
use crate::path::{is_absolute, path_is_absolute, Platform};
use crate::policy::{ValidatedMount, ValidatedPolicy};
use crate::protocol::MountAccess;
use crate::string_map::{lemma_pair_in_map, position, StringMap};
use crate::text::{bytes_of, concat, has_prefix, same_text, texts};

verus! {

pub const AUTHORIZATION_VERSION: u8 = 1;

/// Who a persistent authorization belongs to, and which one it is.
#[derive(Debug, Clone, PartialEq, Eq)]
pub struct AuthorizationSpec {
    pub tenant_id: String,
    pub authorization_id: String,
}

/// Whose identifier the directories of an authorization are granted to.
#[derive(Debug, Clone, Copy, PartialEq, Eq, Structural)]
pub enum Grantee {
    /// A user that the processes of all authorizations run as. It reads what any user may read.
    User,
    /// A package of the authorization's own. It reads nothing but what it was granted.
    Package,
}

/// A mount of a persistent authorization.
#[derive(Debug, Clone, PartialEq, Eq)]
pub struct PersistentMount {
    pub source: String,
    pub access: MountAccess,
}

/// What is kept of a persistent authorization.
#[derive(Debug, Clone, PartialEq, Eq)]
pub struct PersistentAuthorization {
    pub version: u8,
    pub sid: String,
    pub policy_fingerprint: String,
    pub mounts: Vec<PersistentMount>,
    pub granted: Vec<String>,
}

/// The bytes by which an authorization is named.
pub open spec fn authorization_bytes(tenant: Seq<char>, authorization: Seq<char>) -> Seq<u8> {
    encode_utf8(tenant) + seq![0u8] + encode_utf8(authorization)
}

/// The name under which an authorization is kept: the digits of the digest of its bytes.
pub open spec fn hash_of(tenant: Seq<char>, authorization: Seq<char>) -> Seq<char> {
    hex_text(sha256(authorization_bytes(tenant, authorization)))
}

/// The name under which an authorization is kept.
pub fn authorization_hash(authorization: &AuthorizationSpec) -> (r: String)
    ensures
        r@ == hash_of(authorization.tenant_id@, authorization.authorization_id@),
        is_digest_text(r@),
{
    let mut data = bytes_of(&authorization.tenant_id);
    data.push(0);
    data.append(&mut bytes_of(&authorization.authorization_id));
    assert(data@ =~= authorization_bytes(
        authorization.tenant_id@,
        authorization.authorization_id@,
    ));
    digest_text(&data)
}

/// The file in which an authorization is kept.
pub fn authorization_file(authorization: &AuthorizationSpec) -> (r: String)
    ensures
        r@ == hash_of(authorization.tenant_id@, authorization.authorization_id@) + ".json"@,
{
    concat(&authorization_hash(authorization), ".json")
}

proof fn lemma_encode_both(a: Seq<char>, b: Seq<char>)
    ensures
        encode_utf8(a + b) == encode_utf8(a) + encode_utf8(b),
    decreases a.len(),
{
    if a.len() == 0 {
        assert(a + b =~= b);
        assert(encode_utf8(a) + encode_utf8(b) =~= encode_utf8(b));
    } else {
        lemma_encode_both(a.drop_first(), b);
        assert((a + b).drop_first() =~= a.drop_first() + b);
        assert(encode_utf8(a + b) =~= encode_utf8(a) + encode_utf8(b));
    }
}

proof fn lemma_encode_nul()
    ensures
        encode_utf8(seq!['\0']) == seq![0u8],
{
    assert((0u32 & 0x7F) as u8 == 0u8) by (bit_vector);
    assert(seq!['\0'].drop_first() =~= Seq::<char>::empty());
    assert(encode_utf8(Seq::<char>::empty()) =~= Seq::<u8>::empty());
    assert(leading_byte_width_1(0) == 0u8);
    assert(encode_scalar(0) =~= seq![0u8]);
    assert(encode_utf8(seq!['\0']) =~= seq![0u8]);
}

proof fn lemma_same_front(a: Seq<char>, x: Seq<char>, b: Seq<char>, y: Seq<char>)
    requires
        !a.contains('\0'),
        !b.contains('\0'),
        a + seq!['\0'] + x == b + seq!['\0'] + y,
    ensures
        a == b,
        x == y,
{
    let left = a + seq!['\0'] + x;
    let right = b + seq!['\0'] + y;
    if a.len() < b.len() {
        assert(left[a.len() as int] == '\0');
        assert(right[a.len() as int] == b[a.len() as int]);
    } else if b.len() < a.len() {
        assert(right[b.len() as int] == '\0');
        assert(left[b.len() as int] == a[b.len() as int]);
    }
    assert(a =~= left.take(a.len() as int));
    assert(b =~= right.take(b.len() as int));
    assert(x =~= left.skip(a.len() as int + 1));
    assert(y =~= right.skip(b.len() as int + 1));
}

/// Two authorizations whose tenants hold no NUL are named by the same bytes only where they are
/// the same: no tenant can be given a name that makes its authorizations those of another.
pub proof fn law_authorizations_are_told_apart(
    tenant: Seq<char>,
    authorization: Seq<char>,
    other_tenant: Seq<char>,
    other_authorization: Seq<char>,
)
    requires
        !tenant.contains('\0'),
        !other_tenant.contains('\0'),
        authorization_bytes(tenant, authorization) == authorization_bytes(
            other_tenant,
            other_authorization,
        ),
    ensures
        tenant == other_tenant,
        authorization == other_authorization,
{
    let one = tenant + seq!['\0'] + authorization;
    let other = other_tenant + seq!['\0'] + other_authorization;
    lemma_encode_nul();
    lemma_encode_both(tenant + seq!['\0'], authorization);
    lemma_encode_both(tenant, seq!['\0']);
    lemma_encode_both(other_tenant + seq!['\0'], other_authorization);
    lemma_encode_both(other_tenant, seq!['\0']);
    encode_utf8_decode_utf8(one);
    encode_utf8_decode_utf8(other);
    lemma_same_front(tenant, authorization, other_tenant, other_authorization);
}

pub open spec fn access_name(access: MountAccess) -> Seq<char> {
    match access {
        MountAccess::ReadOnly => "read-only"@,
        MountAccess::ReadWrite => "read-write"@,
    }
}

/// The bytes that the mounts of an authorization are fingerprinted by.
pub open spec fn mount_bytes(mounts: Seq<PersistentMount>) -> Seq<u8>
    decreases mounts.len(),
{
    if mounts.len() == 0 {
        Seq::empty()
    } else {
        mount_bytes(mounts.drop_last()) + encode_utf8(mounts.last().source@) + seq![0u8]
            + encode_utf8(access_name(mounts.last().access)) + seq![0u8]
    }
}

/// The fingerprint of the mounts of an authorization.
pub fn mount_fingerprint(mounts: &Vec<PersistentMount>) -> (r: String)
    ensures
        r@ == fingerprint_of(mount_bytes(mounts@)),
{
    let mut data: Vec<u8> = Vec::new();
    let mut i: usize = 0;
    proof {
        assert(mounts@.take(0) =~= Seq::<PersistentMount>::empty());
    }
    while i < mounts.len()
        invariant
            i <= mounts@.len(),
            data@ == mount_bytes(mounts@.take(i as int)),
        decreases mounts@.len() - i,
    {
        let ghost before = data@;
        let name = match mounts[i].access {
            MountAccess::ReadOnly => "read-only",
            MountAccess::ReadWrite => "read-write",
        };
        data.append(&mut bytes_of(&mounts[i].source));
        data.push(0);
        data.append(&mut bytes_of(name));
        data.push(0);
        proof {
            assert(mounts@.take(i + 1).drop_last() =~= mounts@.take(i as int));
            assert(data@ =~= before + encode_utf8(mounts@[i as int].source@) + seq![0u8]
                + encode_utf8(access_name(mounts@[i as int].access)) + seq![0u8]);
        }
        i = i + 1;
    }
    proof {
        assert(mounts@.take(i as int) =~= mounts@);
    }
    fingerprint(&data)
}

/// The mounts of a policy as an authorization keeps them, in the order of their names.
pub open spec fn persistent_form(policy: ValidatedPolicy) -> Seq<(Seq<char>, MountAccess)> {
    policy.mounts.pairs().map_values(
        |pair: (Seq<char>, ValidatedMount)| (pair.1.source@, pair.1.access),
    )
}

pub open spec fn mount_views(mounts: Seq<PersistentMount>) -> Seq<(Seq<char>, MountAccess)> {
    mounts.map_values(|m: PersistentMount| (m.source@, m.access))
}

/// The mounts of a policy as an authorization keeps them.
pub fn persistent_mounts(policy: &ValidatedPolicy) -> (r: Vec<PersistentMount>)
    ensures
        mount_views(r@) == persistent_form(*policy),
{
    let count: usize = policy.mounts.len();
    let mut mounts: Vec<PersistentMount> = Vec::new();
    let mut i: usize = 0;
    while i < count
        invariant
            i <= count == policy.mounts.pairs().len(),
            mount_views(mounts@) == persistent_form(*policy).take(i as int),
        decreases count - i,
    {
        let mount = policy.mounts.value_at(i);
        let ghost before = mount_views(mounts@);
        mounts.push(PersistentMount { source: mount.source.clone(), access: mount.access });
        proof {
            assert(mount_views(mounts@) =~= before.push((mount.source@, mount.access)));
            assert(mount_views(mounts@) =~= persistent_form(*policy).take(i as int + 1));
        }
        i = i + 1;
    }
    proof {
        assert(persistent_form(*policy).take(i as int) =~= persistent_form(*policy));
    }
    mounts
}

/// What the identifiers of users, and those of packages, begin with.
pub open spec fn sid_family(grantee: Grantee) -> Seq<char> {
    match grantee {
        Grantee::User => "S-1-5-21-"@,
        Grantee::Package => "S-1-15-2-"@,
    }
}

/// Whether a record can be one that this daemon wrote.
pub open spec fn is_sound_authorization(
    record: PersistentAuthorization,
    grantee: Grantee,
) -> bool {
    &&& record.version == AUTHORIZATION_VERSION
    &&& sid_family(grantee).is_prefix_of(record.sid@)
    &&& forall|i: int|
        0 <= i < record.mounts@.len() ==> is_absolute(
            Platform::Windows,
            (#[trigger] record.mounts@[i]).source@,
        )
}

pub open spec fn record_fault(record: PersistentAuthorization, grantee: Grantee) -> Option<Fault> {
    if is_sound_authorization(record, grantee) {
        None
    } else {
        Some(
            Fault::BackendUnavailable("persistent authorization failed integrity validation"@),
        )
    }
}

/// Refuses a record of a user's authorization that this daemon cannot have written.
pub fn validate_authorization(record: &PersistentAuthorization) -> (r: Result<(), SandboxError>)
    ensures
        failure(r) == record_fault(*record, Grantee::User),
{
    validate_record(record, Grantee::User)
}

/// Refuses a record that this daemon cannot have written.
pub fn validate_record(record: &PersistentAuthorization, grantee: Grantee) -> (r: Result<
    (),
    SandboxError,
>)
    ensures
        failure(r) == record_fault(*record, grantee),
{
    let family = match grantee {
        Grantee::User => "S-1-5-21-",
        Grantee::Package => "S-1-15-2-",
    };
    let mut sound = record.version == AUTHORIZATION_VERSION && has_prefix(&record.sid, family);
    let mut i: usize = 0;
    while sound && i < record.mounts.len()
        invariant
            i <= record.mounts@.len(),
            sound ==> record.version == AUTHORIZATION_VERSION && sid_family(grantee).is_prefix_of(
                record.sid@,
            ),
            sound ==> forall|j: int|
                0 <= j < i ==> is_absolute(
                    Platform::Windows,
                    (#[trigger] record.mounts@[j]).source@,
                ),
            !sound ==> !is_sound_authorization(*record, grantee),
        decreases record.mounts@.len() - i,
    {
        if !path_is_absolute(Platform::Windows, &record.mounts[i].source) {
            sound = false;
        }
        i = i + 1;
    }
    if sound {
        Ok(())
    } else {
        Err(
            SandboxError::backend_unavailable(
                "persistent authorization failed integrity validation",
            ),
        )
    }
}

/// Whether a record, whose fingerprint is that of its mounts, is that of the same user or package
/// and of the same directories that are written to. What is only read may have changed since.
pub open spec fn is_same_grant(
    record: PersistentAuthorization,
    sid: Seq<char>,
    mounts: Seq<PersistentMount>,
) -> bool {
    &&& record.sid@ == sid
    &&& record.policy_fingerprint@ == fingerprint_of(mount_bytes(record.mounts@))
    &&& writable(record.mounts@) == writable(mounts)
}

/// Whether a record is another one, brought up to date with these mounts.
pub open spec fn is_refreshed(
    refreshed: PersistentAuthorization,
    record: PersistentAuthorization,
    mounts: Seq<PersistentMount>,
) -> bool {
    &&& refreshed.version == record.version
    &&& refreshed.sid == record.sid
    &&& refreshed.granted == record.granted
    &&& refreshed.mounts@ == mounts
    &&& refreshed.policy_fingerprint@ == fingerprint_of(mount_bytes(mounts))
}

/// Admits the reuse of a recorded authorization, which must be for exactly these directories that
/// are written to. Mounts that are only read may have changed. Returns the record to keep.
pub fn reuse_authorization(
    record: PersistentAuthorization,
    grantee: Grantee,
    sid: &str,
    mounts: Vec<PersistentMount>,
) -> (r: Result<PersistentAuthorization, SandboxError>)
    ensures
        failure(r) == if record_fault(record, grantee) is Some {
            record_fault(record, grantee)
        } else if is_same_grant(record, sid@, mounts@) {
            None
        } else {
            Some(
                Fault::InvalidPolicy(
                    "persistent authorization does not match the requested policy"@,
                ),
            )
        },
        r matches Ok(refreshed) ==> is_refreshed(refreshed, record, mounts@),
{
    match validate_record(&record, grantee) {
        Ok(()) => {},
        Err(error) => {
            return Err(error);
        },
    }
    if !same_text(&record.sid, sid) || !same_text(
        &record.policy_fingerprint,
        &mount_fingerprint(&record.mounts),
    ) || !same_texts(&writable_sources(&record.mounts), &writable_sources(&mounts)) {
        return Err(
            SandboxError::invalid_policy(
                "persistent authorization does not match the requested policy",
            ),
        );
    }
    let policy_fingerprint = mount_fingerprint(&mounts);
    Ok(PersistentAuthorization { policy_fingerprint, mounts, ..record })
}

/// A new record, of which nothing is granted yet.
pub fn new_authorization(sid: &str, mounts: Vec<PersistentMount>) -> (r: PersistentAuthorization)
    ensures
        r.version == AUTHORIZATION_VERSION,
        r.sid@ == sid@,
        r.policy_fingerprint@ == fingerprint_of(mount_bytes(mounts@)),
        r.mounts == mounts,
        r.granted@.len() == 0,
{
    PersistentAuthorization {
        version: AUTHORIZATION_VERSION,
        sid: sid.to_owned(),
        policy_fingerprint: mount_fingerprint(&mounts),
        mounts,
        granted: Vec::new(),
    }
}

/// What was enrolled is admitted again as long as the same directories are written to, whatever
/// has become of those that are only read; and the record that is then kept is admitted in turn.
/// A user's enrollment stays complete with it.
pub proof fn law_enrolled_authorization_is_reused(
    record: PersistentAuthorization,
    refreshed: PersistentAuthorization,
    grantee: Grantee,
    sid: Seq<char>,
    mounts: Seq<PersistentMount>,
    later: Seq<PersistentMount>,
)
    requires
        record.version == AUTHORIZATION_VERSION,
        record.sid@ == sid,
        record.policy_fingerprint@ == fingerprint_of(mount_bytes(mounts)),
        record.mounts@ == mounts,
        sid_family(grantee).is_prefix_of(sid),
        forall|i: int|
            0 <= i < mounts.len() ==> is_absolute(
                Platform::Windows,
                (#[trigger] mounts[i]).source@,
            ),
        forall|i: int|
            0 <= i < later.len() ==> is_absolute(
                Platform::Windows,
                (#[trigger] later[i]).source@,
            ),
        writable(later) == writable(mounts),
        is_refreshed(refreshed, record, later),
    ensures
        record_fault(record, grantee) is None,
        is_same_grant(record, sid, later),
        record_fault(refreshed, grantee) is None,
        is_same_grant(refreshed, sid, later),
        is_same_grant(refreshed, sid, mounts),
        is_complete(refreshed, Grantee::User) == is_complete(record, Grantee::User),
{
    lemma_enrolled_sources(mounts);
    lemma_enrolled_sources(later);
}

/// The sources of the mounts that are written to, in order.
pub open spec fn writable(mounts: Seq<PersistentMount>) -> Seq<Seq<char>>
    decreases mounts.len(),
{
    if mounts.len() == 0 {
        Seq::empty()
    } else if mounts.last().access == MountAccess::ReadWrite {
        writable(mounts.drop_last()).push(mounts.last().source@)
    } else {
        writable(mounts.drop_last())
    }
}

/// The sources of mounts, in order.
pub open spec fn sources_in(mounts: Seq<(Seq<char>, MountAccess)>) -> Seq<Seq<char>> {
    mounts.map_values(|m: (Seq<char>, MountAccess)| m.0)
}

/// The mounts that an enrollment grants, in order: for a user those that are written to, for a
/// package all.
pub open spec fn enrolled(mounts: Seq<PersistentMount>, grantee: Grantee) -> Seq<
    (Seq<char>, MountAccess),
>
    decreases mounts.len(),
{
    if mounts.len() == 0 {
        Seq::empty()
    } else {
        let rest = enrolled(mounts.drop_last(), grantee);
        let last = mounts.last();
        if grantee == Grantee::Package || last.access == MountAccess::ReadWrite {
            rest.push((last.source@, last.access))
        } else {
            rest
        }
    }
}

pub open spec fn enrolled_sources(mounts: Seq<PersistentMount>, grantee: Grantee) -> Seq<
    Seq<char>,
> {
    sources_in(enrolled(mounts, grantee))
}

/// What a user is granted are the directories that are written to; what a package is granted are
/// all of them.
pub proof fn lemma_enrolled_sources(mounts: Seq<PersistentMount>)
    ensures
        enrolled_sources(mounts, Grantee::User) == writable(mounts),
        enrolled(mounts, Grantee::Package) == mount_views(mounts),
    decreases mounts.len(),
{
    if mounts.len() > 0 {
        let fewer = mounts.drop_last();
        let last = (mounts.last().source@, mounts.last().access);
        lemma_enrolled_sources(fewer);
        assert(mount_views(mounts) =~= mount_views(fewer).push(last));
        assert(sources_in(enrolled(fewer, Grantee::User).push(last)) =~= writable(fewer).push(
            last.0,
        ));
    }
    assert(enrolled_sources(mounts, Grantee::User) =~= writable(mounts));
    assert(enrolled(mounts, Grantee::Package) =~= mount_views(mounts));
}

/// The mounts that an enrollment grants.
pub fn enrolled_mounts(mounts: &Vec<PersistentMount>, grantee: Grantee) -> (r: Vec<
    PersistentMount,
>)
    ensures
        mount_views(r@) == enrolled(mounts@, grantee),
{
    let mut list: Vec<PersistentMount> = Vec::new();
    let mut i: usize = 0;
    proof {
        assert(mounts@.take(0) =~= Seq::<PersistentMount>::empty());
        assert(mount_views(list@) =~= Seq::<(Seq<char>, MountAccess)>::empty());
    }
    while i < mounts.len()
        invariant
            i <= mounts@.len(),
            mount_views(list@) == enrolled(mounts@.take(i as int), grantee),
        decreases mounts@.len() - i,
    {
        let mount = &mounts[i];
        let ghost before = mount_views(list@);
        proof {
            assert(mounts@.take(i + 1).drop_last() =~= mounts@.take(i as int));
        }
        if grantee == Grantee::Package || mount.access == MountAccess::ReadWrite {
            list.push(PersistentMount { source: mount.source.clone(), access: mount.access });
            assert(mount_views(list@) =~= before.push((mount.source@, mount.access)));
        }
        i = i + 1;
    }
    proof {
        assert(mounts@.take(i as int) =~= mounts@);
    }
    list
}

/// The sources of mounts.
pub(crate) fn mount_sources(mounts: &Vec<PersistentMount>) -> (r: Vec<String>)
    ensures
        texts(r@) == sources_in(mount_views(mounts@)),
{
    let mut sources: Vec<String> = Vec::new();
    let mut i: usize = 0;
    while i < mounts.len()
        invariant
            i <= mounts@.len(),
            texts(sources@) == sources_in(mount_views(mounts@)).take(i as int),
        decreases mounts@.len() - i,
    {
        let ghost before = texts(sources@);
        sources.push(mounts[i].source.clone());
        proof {
            assert(texts(sources@) =~= before.push(mounts@[i as int].source@));
            assert(texts(sources@) =~= sources_in(mount_views(mounts@)).take(i + 1));
        }
        i = i + 1;
    }
    assert(sources_in(mount_views(mounts@)).take(i as int) =~= sources_in(mount_views(mounts@)));
    sources
}

/// The sources of the mounts that are written to.
pub fn writable_sources(mounts: &Vec<PersistentMount>) -> (r: Vec<String>)
    ensures
        texts(r@) == writable(mounts@),
{
    let mut sources: Vec<String> = Vec::new();
    let mut i: usize = 0;
    proof {
        assert(mounts@.take(0) =~= Seq::<PersistentMount>::empty());
        assert(texts(sources@) =~= Seq::<Seq<char>>::empty());
    }
    while i < mounts.len()
        invariant
            i <= mounts@.len(),
            texts(sources@) == writable(mounts@.take(i as int)),
        decreases mounts@.len() - i,
    {
        let ghost before = texts(sources@);
        proof {
            assert(mounts@.take(i + 1).drop_last() =~= mounts@.take(i as int));
        }
        if mounts[i].access == MountAccess::ReadWrite {
            sources.push(mounts[i].source.clone());
            assert(texts(sources@) =~= before.push(mounts@[i as int].source@));
        }
        i = i + 1;
    }
    proof {
        assert(mounts@.take(i as int) =~= mounts@);
    }
    sources
}

/// Why a directory that is written to may not be enrolled.
pub open spec fn enrollment_fault(has_entry: Result<bool, String>) -> Option<Fault> {
    match has_entry {
        Ok(false) => None,
        Ok(true) => Some(
            Fault::InvalidPolicy(
                "persistent workspace enrollment requires an empty managed directory"@,
            ),
        ),
        Err(reason) => Some(
            Fault::CapabilityUnavailable(
                "cannot inspect managed workspace before enrollment: "@ + reason@,
            ),
        ),
    }
}

/// Whether a mount may be enrolled: a directory that is written to must be empty, one that is only
/// read need not be.
pub fn inspection_outcome(access: MountAccess, has_entry: Result<bool, String>) -> (r: Result<
    (),
    SandboxError,
>)
    ensures
        failure(r) == match access {
            MountAccess::ReadOnly => None,
            MountAccess::ReadWrite => enrollment_fault(has_entry),
        },
{
    match access {
        MountAccess::ReadOnly => Ok(()),
        MountAccess::ReadWrite => enrollment_outcome(has_entry),
    }
}

/// Whether a directory may be enrolled, given whether it has an entry: it must be empty.
pub fn enrollment_outcome(has_entry: Result<bool, String>) -> (r: Result<(), SandboxError>)
    ensures
        failure(r) == enrollment_fault(has_entry),
{
    match has_entry {
        Ok(false) => Ok(()),
        Ok(true) => Err(
            SandboxError::invalid_policy(
                "persistent workspace enrollment requires an empty managed directory",
            ),
        ),
        Err(reason) => Err(
            SandboxError::CapabilityUnavailable(
                concat("cannot inspect managed workspace before enrollment: ", &reason),
            ),
        ),
    }
}

/// Whether a mount is walked through, and refused where it can be left, before it is granted. A
/// directory that is written to was empty, and a user's mounts are granted at their root alone.
pub fn walks_before_grant(grantee: Grantee, access: MountAccess) -> (r: bool)
    ensures
        r == (grantee == Grantee::Package && access == MountAccess::ReadOnly),
{
    match grantee {
        Grantee::User => false,
        Grantee::Package => match access {
            MountAccess::ReadOnly => true,
            MountAccess::ReadWrite => false,
        },
    }
}

/// Whether a grant was made. One that only reads may fail: the directory is then left as it is.
pub fn optional_read_grant(result: Result<(), SandboxError>, access: MountAccess) -> (r: Result<
    bool,
    SandboxError,
>)
    ensures
        match result {
            Ok(()) => r matches Ok(granted) && granted,
            Err(error) => if access == MountAccess::ReadOnly {
                r matches Ok(granted) && !granted
            } else {
                r matches Err(e) && e == error
            },
        },
{
    match result {
        Ok(()) => Ok(true),
        Err(error) => if access == MountAccess::ReadOnly {
            Ok(false)
        } else {
            Err(error)
        },
    }
}

/// Everything that some record says is granted.
pub open spec fn is_referenced(records: Seq<Vec<String>>, path: Seq<char>) -> bool {
    exists|i: int| 0 <= i < records.len() && texts((#[trigger] records[i])@).contains(path)
}

/// The directories that records still refer to, from what each record says is granted.
pub fn referenced_mounts(records: &Vec<Vec<String>>) -> (r: StringMap<()>)
    ensures
        forall|path: Seq<char>| #[trigger]
            r@.contains_key(path) <==> is_referenced(records@, path),
{
    let mut found: StringMap<()> = StringMap::new();
    let mut i: usize = 0;
    while i < records.len()
        invariant
            i <= records@.len(),
            forall|path: Seq<char>| #[trigger]
                found@.contains_key(path) <==> is_referenced(records@.take(i as int), path),
        decreases records@.len() - i,
    {
        let ghost before = found@;
        let list = &records[i];
        let mut k: usize = 0;
        while k < list.len()
            invariant
                k <= list@.len(),
                forall|path: Seq<char>| #[trigger]
                    found@.contains_key(path) <==> before.contains_key(path) || texts(
                        list@,
                    ).take(k as int).contains(path),
            decreases list@.len() - k,
        {
            let ghost previous = found@;
            found.insert(list[k].clone(), ());
            proof {
                let taken = texts(list@).take(k + 1);
                assert(taken =~= texts(list@).take(k as int).push(list@[k as int]@));
                assert forall|path: Seq<char>| #[trigger]
                    found@.contains_key(path) <==> before.contains_key(path) || taken.contains(
                        path,
                    ) by {
                    if path == list@[k as int]@ {
                        assert(taken[k as int] == path);
                    } else {
                        assert(found@.contains_key(path) == previous.contains_key(path));
                        if taken.contains(path) {
                            let p = choose|p: int| 0 <= p < taken.len() && taken[p] == path;
                            assert(texts(list@).take(k as int)[p] == path);
                        }
                        if texts(list@).take(k as int).contains(path) {
                            let p = choose|p: int|
                                0 <= p < k && texts(list@).take(k as int)[p] == path;
                            assert(taken[p] == path);
                        }
                    }
                }
            }
            k = k + 1;
        }
        proof {
            assert(texts(list@).take(k as int) =~= texts(list@));
            let more = records@.take(i + 1);
            let fewer = records@.take(i as int);
            assert forall|path: Seq<char>| #[trigger]
                found@.contains_key(path) <==> is_referenced(more, path) by {
                if is_referenced(more, path) {
                    let p = choose|p: int|
                        0 <= p < more.len() && texts((#[trigger] more[p])@).contains(path);
                    if p < i {
                        assert(texts(fewer[p]@).contains(path));
                        assert(is_referenced(fewer, path));
                        assert(before.contains_key(path));
                    }
                }
                if before.contains_key(path) {
                    assert(is_referenced(fewer, path));
                    let p = choose|p: int|
                        0 <= p < fewer.len() && texts((#[trigger] fewer[p])@).contains(path);
                    assert(texts(more[p]@).contains(path));
                }
                if texts(list@).contains(path) {
                    assert(texts(more[i as int]@).contains(path));
                }
            }
        }
        i = i + 1;
    }
    proof {
        assert(records@.take(i as int) =~= records@);
    }
    found
}

/// The granted paths that nothing else refers to, the last first.
pub open spec fn retired(granted: Seq<Seq<char>>, referenced: Set<Seq<char>>) -> Seq<Seq<char>>
    decreases granted.len(),
{
    if granted.len() == 0 {
        Seq::empty()
    } else {
        let rest = retired(granted.drop_last(), referenced);
        if referenced.contains(granted.last()) {
            rest
        } else {
            seq![granted.last()] + rest
        }
    }
}

/// The paths of a list that nothing else refers to, the last first.
fn unreferenced(list: &Vec<String>, referenced: &StringMap<()>) -> (r: Vec<String>)
    ensures
        texts(r@) == retired(texts(list@), referenced@.dom()),
{
    let ghost all = texts(list@);
    let mut paths: Vec<String> = Vec::new();
    let mut left: usize = list.len();
    proof {
        assert(all.take(left as int) =~= all);
        assert(texts(paths@) + retired(all, referenced@.dom()) =~= retired(
            all,
            referenced@.dom(),
        ));
    }
    while left > 0
        invariant
            left <= list@.len(),
            all == texts(list@),
            texts(paths@) + retired(all.take(left as int), referenced@.dom()) == retired(
                all,
                referenced@.dom(),
            ),
        decreases left,
    {
        let ghost before = texts(paths@);
        let path = &list[left - 1];
        proof {
            assert(all.take(left as int).drop_last() =~= all.take(left - 1));
        }
        if !referenced.contains_key(path) {
            paths.push(path.clone());
            proof {
                let rest = retired(all.take(left - 1), referenced@.dom());
                assert(texts(paths@) =~= before.push(path@));
                assert(texts(paths@) + rest =~= before + (seq![path@] + rest));
            }
        }
        left = left - 1;
    }
    proof {
        assert(all.take(0) =~= Seq::<Seq<char>>::empty());
        assert(texts(paths@) =~= texts(paths@) + retired(all.take(0), referenced@.dom()));
    }
    paths
}

/// What to revoke, in this order, once the record of an authorization is gone. `referenced` is
/// what the other records refer to.
pub fn revocable_grants(record: &PersistentAuthorization, referenced: &StringMap<()>) -> (r: Vec<
    String,
>)
    ensures
        texts(r@) == retired(texts(record.granted@), referenced@.dom()),
{
    unreferenced(&record.granted, referenced)
}

/// Whether a record says that its enrollment came to its end: that everything that it grants is
/// granted. What it says beyond that is to be granted besides, or taken back.
pub open spec fn is_complete(record: PersistentAuthorization, grantee: Grantee) -> bool {
    enrolled_sources(record.mounts@, grantee).is_prefix_of(texts(record.granted@))
}

/// The record of an enrollment that came to its end.
pub fn complete_authorization(record: PersistentAuthorization, grantee: Grantee) -> (r:
    PersistentAuthorization)
    ensures
        r == (PersistentAuthorization { granted: r.granted, ..record }),
        texts(r.granted@) == enrolled_sources(record.mounts@, grantee),
        is_complete(r, grantee),
{
    let granted = mount_sources(&enrolled_mounts(&record.mounts, grantee));
    PersistentAuthorization { granted, ..record }
}

/// What is to be done about a record that an earlier daemon left behind.
#[derive(Debug, Clone, PartialEq, Eq)]
pub enum EnrollmentRecovery {
    /// The enrollment came to its end: its grants stand.
    Keep,
    /// It did not: these paths are to be revoked, in this order, and the record removed.
    Undo(Vec<String>),
}

/// What is to be done about a record that an earlier daemon left behind. `referenced` is what the
/// other records refer to.
pub fn recover_enrollment(
    record: &PersistentAuthorization,
    grantee: Grantee,
    referenced: &StringMap<()>,
) -> (r: Result<EnrollmentRecovery, SandboxError>)
    ensures
        failure(r) == record_fault(*record, grantee),
        r matches Ok(recovery) ==> match recovery {
            EnrollmentRecovery::Keep => is_complete(*record, grantee),
            EnrollmentRecovery::Undo(paths) => !is_complete(*record, grantee) && texts(paths@)
                == retired(enrolled_sources(record.mounts@, grantee), referenced@.dom()),
        },
{
    match validate_record(record, grantee) {
        Ok(()) => {},
        Err(error) => {
            return Err(error);
        },
    }
    let sources = mount_sources(&enrolled_mounts(&record.mounts, grantee));
    if begins_with(&record.granted, &sources) {
        Ok(EnrollmentRecovery::Keep)
    } else {
        Ok(EnrollmentRecovery::Undo(unreferenced(&sources, referenced)))
    }
}

/// Whether a list of texts begins with another.
pub(crate) fn begins_with(list: &Vec<String>, front: &Vec<String>) -> (r: bool)
    ensures
        r == texts(front@).is_prefix_of(texts(list@)),
{
    assert(texts(front@).len() == front@.len());
    assert(texts(list@).len() == list@.len());
    if front.len() > list.len() {
        return false;
    }
    let mut i: usize = 0;
    while i < front.len()
        invariant
            i <= front@.len() <= list@.len(),
            forall|j: int| 0 <= j < i ==> texts(front@)[j] == #[trigger] texts(list@)[j],
        decreases front@.len() - i,
    {
        proof {
            assert(texts(front@)[i as int] == front@[i as int]@);
            assert(texts(list@)[i as int] == list@[i as int]@);
        }
        if !same_text(&front[i], &list[i]) {
            assert(texts(list@).subrange(0, front@.len() as int)[i as int] == list@[i as int]@);
            return false;
        }
        i = i + 1;
    }
    assert(texts(list@).subrange(0, front@.len() as int) =~= texts(front@));
    true
}

pub(crate) fn same_texts(a: &Vec<String>, b: &Vec<String>) -> (r: bool)
    ensures
        r == (texts(a@) == texts(b@)),
{
    if a.len() != b.len() {
        assert(texts(a@).len() != texts(b@).len());
        return false;
    }
    let mut i: usize = 0;
    while i < a.len()
        invariant
            i <= a@.len() == b@.len(),
            forall|j: int| 0 <= j < i ==> texts(a@)[j] == #[trigger] texts(b@)[j],
        decreases a@.len() - i,
    {
        proof {
            assert(texts(a@)[i as int] == a@[i as int]@);
            assert(texts(b@)[i as int] == b@[i as int]@);
        }
        if !same_text(&a[i], &b[i]) {
            return false;
        }
        i = i + 1;
    }
    assert(texts(a@) =~= texts(b@));
    true
}

/// Retiring an authorization takes nothing away from what another record still refers to, and
/// leaves nothing granted that no record refers to.
pub proof fn law_retiring_spares_what_is_shared(
    granted: Seq<Seq<char>>,
    referenced: Set<Seq<char>>,
    path: Seq<char>,
)
    ensures
        retired(granted, referenced).contains(path) <==> granted.contains(path)
            && !referenced.contains(path),
    decreases granted.len(),
{
    if granted.len() > 0 {
        let rest = retired(granted.drop_last(), referenced);
        law_retiring_spares_what_is_shared(granted.drop_last(), referenced, path);
        let last = granted.last();
        assert(granted.contains(path) <==> granted.drop_last().contains(path) || path == last) by {
            if granted.contains(path) {
                let p = choose|p: int| 0 <= p < granted.len() && granted[p] == path;
                if p < granted.len() - 1 {
                    assert(granted.drop_last()[p] == path);
                }
            }
            if granted.drop_last().contains(path) {
                let p = choose|p: int|
                    0 <= p < granted.drop_last().len() && granted.drop_last()[p] == path;
                assert(granted[p] == path);
            }
            if path == last {
                assert(granted[granted.len() - 1] == path);
            }
        }
        let whole = seq![last] + rest;
        assert(whole.contains(path) <==> path == last || rest.contains(path)) by {
            if whole.contains(path) {
                let p = choose|p: int| 0 <= p < whole.len() && whole[p] == path;
                if p > 0 {
                    assert(rest[p - 1] == path);
                }
            }
            if path == last {
                assert(whole[0] == path);
            }
            if rest.contains(path) {
                let p = choose|p: int| 0 <= p < rest.len() && rest[p] == path;
                assert(whole[p + 1] == path);
            }
        }
    }
}

/// How far the enrollment of an authorization has come.
pub enum EnrollStage {
    /// The directory at this place is to be inspected; the ones before it are empty.
    Inspecting(usize),
    /// The record is to be written, with nothing granted.
    Recording,
    /// The directory at this place is to be granted; the ones before it are.
    Granting(usize),
    /// The directories up to and with this one are granted; this one is to be taken back next.
    Revoking(usize, SandboxError),
    /// Nothing is granted; the record is to be removed.
    RemovingRecord(SandboxError),
    /// Every directory is granted; the record is to be completed.
    Activating,
    /// The enrollment failed and nothing is granted.
    Failed(SandboxError),
    /// Every directory is granted, but the record does not say so.
    Unrecorded(SandboxError),
    /// Every directory is granted, and the record says so.
    Enrolled,
}

/// What is to be done next.
#[derive(Debug, Clone, Copy, PartialEq, Eq, Structural)]
pub enum EnrollAction {
    Inspect(usize),
    WriteRecord,
    Grant(usize),
    Revoke(usize),
    RemoveRecord,
    CompleteRecord,
    Finish,
}

impl EnrollStage {
    pub open spec fn wf(self, count: nat) -> bool {
        match self {
            EnrollStage::Inspecting(i) => i < count,
            EnrollStage::Granting(i) => i < count,
            EnrollStage::Revoking(i, _) => i < count,
            _ => true,
        }
    }

    /// How many directories, counted from the first, are granted.
    pub open spec fn granted(self, count: nat) -> nat {
        match self {
            EnrollStage::Granting(i) => i as nat,
            EnrollStage::Revoking(i, _) => i as nat + 1,
            EnrollStage::Activating => count,
            EnrollStage::Unrecorded(_) => count,
            EnrollStage::Enrolled => count,
            _ => 0,
        }
    }

    pub open spec fn first(count: nat) -> Self {
        if count == 0 {
            EnrollStage::Recording
        } else {
            EnrollStage::Inspecting(0)
        }
    }

    pub open spec fn next_action(self) -> EnrollAction {
        match self {
            EnrollStage::Inspecting(i) => EnrollAction::Inspect(i),
            EnrollStage::Recording => EnrollAction::WriteRecord,
            EnrollStage::Granting(i) => EnrollAction::Grant(i),
            EnrollStage::Revoking(i, _) => EnrollAction::Revoke(i),
            EnrollStage::RemovingRecord(_) => EnrollAction::RemoveRecord,
            EnrollStage::Activating => EnrollAction::CompleteRecord,
            EnrollStage::Failed(_) => EnrollAction::Finish,
            EnrollStage::Unrecorded(_) => EnrollAction::Finish,
            EnrollStage::Enrolled => EnrollAction::Finish,
        }
    }

    /// The stage after the action was done with this outcome.
    pub open spec fn after(self, outcome: Result<(), SandboxError>, count: nat) -> Self {
        match self {
            EnrollStage::Inspecting(i) => match outcome {
                Ok(()) => if i + 1 < count {
                    EnrollStage::Inspecting((i + 1) as usize)
                } else {
                    EnrollStage::Recording
                },
                Err(e) => EnrollStage::Failed(e),
            },
            EnrollStage::Recording => match outcome {
                Ok(()) => if count == 0 {
                    EnrollStage::Activating
                } else {
                    EnrollStage::Granting(0)
                },
                Err(e) => EnrollStage::Failed(e),
            },
            EnrollStage::Granting(i) => match outcome {
                Ok(()) => if i + 1 < count {
                    EnrollStage::Granting((i + 1) as usize)
                } else {
                    EnrollStage::Activating
                },
                Err(e) => if i > 0 {
                    EnrollStage::Revoking((i - 1) as usize, e)
                } else {
                    EnrollStage::RemovingRecord(e)
                },
            },
            EnrollStage::Revoking(i, e) => if i > 0 {
                EnrollStage::Revoking((i - 1) as usize, e)
            } else {
                EnrollStage::RemovingRecord(e)
            },
            EnrollStage::RemovingRecord(e) => EnrollStage::Failed(e),
            EnrollStage::Activating => match outcome {
                Ok(()) => EnrollStage::Enrolled,
                Err(e) => EnrollStage::Unrecorded(e),
            },
            EnrollStage::Failed(e) => EnrollStage::Failed(e),
            EnrollStage::Unrecorded(e) => EnrollStage::Unrecorded(e),
            EnrollStage::Enrolled => EnrollStage::Enrolled,
        }
    }

    /// Where the enrollment of a number of directories begins.
    pub fn start(count: usize) -> (r: Self)
        ensures
            r == Self::first(count as nat),
            r.wf(count as nat),
    {
        if count == 0 {
            EnrollStage::Recording
        } else {
            EnrollStage::Inspecting(0)
        }
    }

    /// What is to be done next.
    pub fn action(&self) -> (r: EnrollAction)
        ensures
            r == self.next_action(),
    {
        match self {
            EnrollStage::Inspecting(i) => EnrollAction::Inspect(*i),
            EnrollStage::Recording => EnrollAction::WriteRecord,
            EnrollStage::Granting(i) => EnrollAction::Grant(*i),
            EnrollStage::Revoking(i, _) => EnrollAction::Revoke(*i),
            EnrollStage::RemovingRecord(_) => EnrollAction::RemoveRecord,
            EnrollStage::Activating => EnrollAction::CompleteRecord,
            EnrollStage::Failed(_) => EnrollAction::Finish,
            EnrollStage::Unrecorded(_) => EnrollAction::Finish,
            EnrollStage::Enrolled => EnrollAction::Finish,
        }
    }

    /// Takes note of the outcome of the action.
    pub fn advance(self, outcome: Result<(), SandboxError>, count: usize) -> (r: Self)
        requires
            self.wf(count as nat),
        ensures
            r == self.after(outcome, count as nat),
            r.wf(count as nat),
    {
        match self {
            EnrollStage::Inspecting(i) => match outcome {
                Ok(()) => if i + 1 < count {
                    EnrollStage::Inspecting(i + 1)
                } else {
                    EnrollStage::Recording
                },
                Err(e) => EnrollStage::Failed(e),
            },
            EnrollStage::Recording => match outcome {
                Ok(()) => if count == 0 {
                    EnrollStage::Activating
                } else {
                    EnrollStage::Granting(0)
                },
                Err(e) => EnrollStage::Failed(e),
            },
            EnrollStage::Granting(i) => match outcome {
                Ok(()) => if i + 1 < count {
                    EnrollStage::Granting(i + 1)
                } else {
                    EnrollStage::Activating
                },
                Err(e) => if i > 0 {
                    EnrollStage::Revoking(i - 1, e)
                } else {
                    EnrollStage::RemovingRecord(e)
                },
            },
            EnrollStage::Revoking(i, e) => if i > 0 {
                EnrollStage::Revoking(i - 1, e)
            } else {
                EnrollStage::RemovingRecord(e)
            },
            EnrollStage::RemovingRecord(e) => EnrollStage::Failed(e),
            EnrollStage::Activating => match outcome {
                Ok(()) => EnrollStage::Enrolled,
                Err(e) => EnrollStage::Unrecorded(e),
            },
            EnrollStage::Failed(e) => EnrollStage::Failed(e),
            EnrollStage::Unrecorded(e) => EnrollStage::Unrecorded(e),
            EnrollStage::Enrolled => EnrollStage::Enrolled,
        }
    }
}

/// The stage after a number of actions with given outcomes.
pub open spec fn enrolled_after(outcomes: Seq<Result<(), SandboxError>>, count: nat) -> EnrollStage
    decreases outcomes.len(),
{
    if outcomes.len() == 0 {
        EnrollStage::first(count)
    } else {
        enrolled_after(outcomes.drop_last(), count).after(outcomes.last(), count)
    }
}

/// The directories whose grants stand after a number of actions.
pub open spec fn enrolled_grants(outcomes: Seq<Result<(), SandboxError>>, count: nat) -> Set<int>
    decreases outcomes.len(),
{
    if outcomes.len() == 0 {
        Set::empty()
    } else {
        let before = enrolled_grants(outcomes.drop_last(), count);
        match enrolled_after(outcomes.drop_last(), count).next_action() {
            EnrollAction::Grant(i) => if outcomes.last() is Ok {
                before.insert(i as int)
            } else {
                before
            },
            EnrollAction::Revoke(i) => before.remove(i as int),
            _ => before,
        }
    }
}

proof fn lemma_enrolled_counted(outcomes: Seq<Result<(), SandboxError>>, count: nat)
    requires
        count <= usize::MAX,
    ensures
        enrolled_after(outcomes, count).wf(count),
        enrolled_grants(outcomes, count) =~= Set::new(
            |i: int| 0 <= i < enrolled_after(outcomes, count).granted(count),
        ),
    decreases outcomes.len(),
{
    if outcomes.len() > 0 {
        lemma_enrolled_counted(outcomes.drop_last(), count);
    }
}

/// However the actions turn out: an enrollment that failed has taken back every grant, and one
/// that succeeded has granted every directory.
pub proof fn law_failed_enrollment_leaves_no_grant(
    outcomes: Seq<Result<(), SandboxError>>,
    count: nat,
)
    requires
        count <= usize::MAX,
    ensures
        enrolled_after(outcomes, count) is Failed ==> enrolled_grants(outcomes, count) == Set::<
            int,
        >::empty(),
        enrolled_after(outcomes, count) is Enrolled ==> enrolled_grants(outcomes, count)
            == Set::new(|i: int| 0 <= i < count),
{
    lemma_enrolled_counted(outcomes, count);
    if enrolled_after(outcomes, count) is Failed {
        assert(enrolled_grants(outcomes, count) =~= Set::<int>::empty());
    }
}

/// Whether the record of an enrollment is kept after a number of actions.
pub open spec fn record_stands(outcomes: Seq<Result<(), SandboxError>>, count: nat) -> bool
    decreases outcomes.len(),
{
    if outcomes.len() == 0 {
        false
    } else {
        match enrolled_after(outcomes.drop_last(), count).next_action() {
            EnrollAction::WriteRecord => outcomes.last() is Ok,
            EnrollAction::RemoveRecord => false,
            _ => record_stands(outcomes.drop_last(), count),
        }
    }
}

proof fn lemma_grants_are_recorded(outcomes: Seq<Result<(), SandboxError>>, count: nat)
    requires
        count <= usize::MAX,
    ensures
        enrolled_after(outcomes, count) is Granting || enrolled_after(outcomes, count) is Revoking
            || enrolled_after(outcomes, count) is Activating || enrolled_after(outcomes, count)
            is Unrecorded || enrolled_after(outcomes, count) is Enrolled || enrolled_after(
            outcomes,
            count,
        ) is RemovingRecord ==> record_stands(outcomes, count),
    decreases outcomes.len(),
{
    if outcomes.len() > 0 {
        lemma_grants_are_recorded(outcomes.drop_last(), count);
    }
}

/// Wherever an enrollment is cut short, a later daemon undoes it: while a grant stands there is a
/// record, and as long as that does not say that the enrollment came to its end, recovery revokes
/// every granted directory that no other record refers to.
pub proof fn law_interrupted_enrollment_is_undone(
    outcomes: Seq<Result<(), SandboxError>>,
    record: PersistentAuthorization,
    grantee: Grantee,
    referenced: Set<Seq<char>>,
    i: int,
)
    requires
        enrolled(record.mounts@, grantee).len() <= usize::MAX,
        record.granted@.len() == 0,
        enrolled_grants(outcomes, enrolled(record.mounts@, grantee).len()).contains(i),
        !referenced.contains(enrolled(record.mounts@, grantee)[i].0),
    ensures
        record_stands(outcomes, enrolled(record.mounts@, grantee).len()),
        !is_complete(record, grantee),
        retired(enrolled_sources(record.mounts@, grantee), referenced).contains(
            enrolled(record.mounts@, grantee)[i].0,
        ),
{
    let sources = enrolled_sources(record.mounts@, grantee);
    lemma_enrolled_counted(outcomes, sources.len());
    lemma_grants_are_recorded(outcomes, sources.len());
    assert(0 <= i < enrolled_after(outcomes, sources.len()).granted(sources.len()));
    assert(texts(record.granted@).len() == 0);
    assert(sources.contains(sources[i]));
    law_retiring_spares_what_is_shared(sources, referenced, sources[i]);
}

proof fn lemma_writable(mounts: Seq<PersistentMount>, path: Seq<char>)
    ensures
        writable(mounts).contains(path) <==> exists|i: int|
            0 <= i < mounts.len() && (#[trigger] mounts[i]).access == MountAccess::ReadWrite
                && mounts[i].source@ == path,
    decreases mounts.len(),
{
    if mounts.len() > 0 {
        let fewer = mounts.drop_last();
        let rest = writable(fewer);
        let last = mounts.last();
        lemma_writable(fewer, path);
        let more = rest.push(last.source@);
        assert(more.contains(path) <==> rest.contains(path) || path == last.source@) by {
            if more.contains(path) {
                let p = choose|p: int| 0 <= p < more.len() && more[p] == path;
                if p < rest.len() {
                    assert(rest[p] == path);
                }
            }
            if rest.contains(path) {
                let p = choose|p: int| 0 <= p < rest.len() && rest[p] == path;
                assert(more[p] == path);
            }
            assert(more[rest.len() as int] == last.source@);
        }
        if rest.contains(path) {
            let p = choose|p: int|
                0 <= p < fewer.len() && (#[trigger] fewer[p]).access == MountAccess::ReadWrite
                    && fewer[p].source@ == path;
            assert(mounts[p] == fewer[p]);
        }
        if exists|i: int|
            0 <= i < mounts.len() && (#[trigger] mounts[i]).access == MountAccess::ReadWrite
                && mounts[i].source@ == path {
            let p = choose|p: int|
                0 <= p < mounts.len() && (#[trigger] mounts[p]).access == MountAccess::ReadWrite
                    && mounts[p].source@ == path;
            if p < fewer.len() {
                assert(fewer[p] == mounts[p]);
            }
        }
    }
}

/// Where a record is used again, it is that of the same user or package, its fingerprint is that of
/// its own mounts, and a path is the source of one of its mounts that are written to exactly where
/// it is the source of one of the requested mounts that are written to. So a reuse neither brings
/// in a directory to write to that was not enrolled, nor leaves one out.
pub proof fn law_reuse_writes_to_the_same_directories(
    record: PersistentAuthorization,
    sid: Seq<char>,
    mounts: Seq<PersistentMount>,
    path: Seq<char>,
)
    requires
        is_same_grant(record, sid, mounts),
    ensures
        record.sid@ == sid,
        record.policy_fingerprint@ == fingerprint_of(mount_bytes(record.mounts@)),
        (exists|i: int|
            0 <= i < record.mounts@.len() && (#[trigger] record.mounts@[i]).access
                == MountAccess::ReadWrite && record.mounts@[i].source@ == path) <==> (exists|
            i: int,
        |
            0 <= i < mounts.len() && (#[trigger] mounts[i]).access == MountAccess::ReadWrite
                && mounts[i].source@ == path),
{
    lemma_writable(record.mounts@, path);
    lemma_writable(mounts, path);
}

/// A mount that is only read makes no difference to whether a record can be used again, wherever in
/// the list it stands: neither one that is new nor one that is gone.
pub proof fn law_reuse_overlooks_what_is_only_read(
    record: PersistentAuthorization,
    sid: Seq<char>,
    before: Seq<PersistentMount>,
    read: PersistentMount,
    behind: Seq<PersistentMount>,
)
    requires
        read.access == MountAccess::ReadOnly,
    ensures
        is_same_grant(record, sid, before + seq![read] + behind) <==> is_same_grant(
            record,
            sid,
            before + behind,
        ),
        record.sid@ == sid && record.policy_fingerprint@ == fingerprint_of(
            mount_bytes(record.mounts@),
        ) && record.mounts@ == before + behind ==> is_same_grant(
            record,
            sid,
            before + seq![read] + behind,
        ),
{
    lemma_writable_skips(before, read, behind);
}

proof fn lemma_writable_skips(
    before: Seq<PersistentMount>,
    read: PersistentMount,
    behind: Seq<PersistentMount>,
)
    requires
        read.access == MountAccess::ReadOnly,
    ensures
        writable(before + seq![read] + behind) == writable(before + behind),
    decreases behind.len(),
{
    let with = before + seq![read] + behind;
    let without = before + behind;
    if behind.len() == 0 {
        assert(with.drop_last() =~= before);
        assert(without =~= before);
    } else {
        let fewer = behind.drop_last();
        lemma_writable_skips(before, read, fewer);
        assert(with.drop_last() =~= before + seq![read] + fewer);
        assert(without.drop_last() =~= before + fewer);
    }
}

/// A record is admitted exactly where it is of the first version, its identifier is one of a user's
/// or of a package's, and all its mounts have absolute sources.
pub proof fn law_admitted_records(record: PersistentAuthorization)
    ensures
        record_fault(record, Grantee::User) is None <==> record.version == 1
            && "S-1-5-21-"@.is_prefix_of(record.sid@) && forall|i: int|
            0 <= i < record.mounts@.len() ==> is_absolute(
                Platform::Windows,
                (#[trigger] record.mounts@[i]).source@,
            ),
        record_fault(record, Grantee::Package) is None <==> record.version == 1
            && "S-1-15-2-"@.is_prefix_of(record.sid@) && forall|i: int|
            0 <= i < record.mounts@.len() ==> is_absolute(
                Platform::Windows,
                (#[trigger] record.mounts@[i]).source@,
            ),
{
}

/// A user is granted exactly the directories that are written to, a package every directory, and
/// nothing else.
pub proof fn law_enrolled_directories(mounts: Seq<PersistentMount>, path: Seq<char>)
    ensures
        enrolled_sources(mounts, Grantee::User).contains(path) <==> exists|i: int|
            0 <= i < mounts.len() && (#[trigger] mounts[i]).access == MountAccess::ReadWrite
                && mounts[i].source@ == path,
        enrolled_sources(mounts, Grantee::Package).contains(path) <==> exists|i: int|
            0 <= i < mounts.len() && (#[trigger] mounts[i]).source@ == path,
        forall|i: int|
            0 <= i < mounts.len() ==> enrolled(mounts, Grantee::Package)[i] == (
                (#[trigger] mounts[i]).source@,
                mounts[i].access,
            ),
{
    lemma_enrolled_sources(mounts);
    lemma_writable(mounts, path);
    let all = enrolled_sources(mounts, Grantee::Package);
    assert(all.len() == mounts.len());
    assert forall|i: int| 0 <= i < mounts.len() implies all[i] == (
    #[trigger] mounts[i]).source@ by {}
    if all.contains(path) {
        let p = choose|p: int| 0 <= p < all.len() && all[p] == path;
        assert(mounts[p].source@ == path);
    }
    if exists|i: int| 0 <= i < mounts.len() && (#[trigger] mounts[i]).source@ == path {
        let p = choose|p: int| 0 <= p < mounts.len() && (#[trigger] mounts[p]).source@ == path;
        assert(all[p] == path);
    }
}

/// Every mount of a policy is kept in its authorization, with its access, and nothing besides.
pub proof fn law_authorization_keeps_every_mount(policy: ValidatedPolicy, name: Seq<char>, i: int)
    requires
        policy.mounts.wf(),
    ensures
        policy.mounts@.contains_key(name) ==> persistent_form(policy).contains(
            (policy.mounts@[name].source@, policy.mounts@[name].access),
        ),
        persistent_form(policy).len() == policy.mounts.pairs().len(),
        0 <= i < persistent_form(policy).len() ==> {
            let mount = policy.mounts@[policy.mounts.pairs()[i].0];
            persistent_form(policy)[i] == (mount.source@, mount.access)
        },
{
    let pairs = policy.mounts.pairs();
    let form = persistent_form(policy);
    if policy.mounts@.contains_key(name) {
        let p = position(pairs, name);
        lemma_pair_in_map(pairs, p);
        assert(form[p] == (pairs[p].1.source@, pairs[p].1.access));
    }
    if 0 <= i < form.len() {
        lemma_pair_in_map(pairs, i);
    }
}

/// What is taken back, where nothing else refers to it, is everything in the opposite order.
pub proof fn law_grants_are_taken_back_in_turn(granted: Seq<Seq<char>>)
    ensures
        retired(granted, Set::empty()) == granted.reverse(),
    decreases granted.len(),
{
    if granted.len() > 0 {
        law_grants_are_taken_back_in_turn(granted.drop_last());
        assert(seq![granted.last()] + granted.drop_last().reverse() =~= granted.reverse());
    }
    assert(retired(granted, Set::empty()) =~= granted.reverse());
}

/// The text that the mounts of an authorization are fingerprinted by.
spec fn mount_text(mounts: Seq<PersistentMount>) -> Seq<char>
    decreases mounts.len(),
{
    if mounts.len() == 0 {
        Seq::empty()
    } else {
        mount_text(mounts.drop_last()) + mounts.last().source@ + seq!['\0'] + access_name(
            mounts.last().access,
        ) + seq!['\0']
    }
}

proof fn lemma_mount_text(mounts: Seq<PersistentMount>)
    ensures
        mount_bytes(mounts) == encode_utf8(mount_text(mounts)),
    decreases mounts.len(),
{
    if mounts.len() == 0 {
        assert(encode_utf8(mount_text(mounts)) =~= Seq::<u8>::empty());
    } else {
        let front = mount_text(mounts.drop_last());
        let source = mounts.last().source@;
        let name = access_name(mounts.last().access);
        lemma_mount_text(mounts.drop_last());
        lemma_encode_nul();
        lemma_encode_both(front, source);
        lemma_encode_both(front + source, seq!['\0']);
        lemma_encode_both(front + source + seq!['\0'], name);
        lemma_encode_both(front + source + seq!['\0'] + name, seq!['\0']);
    }
}

proof fn lemma_same_back(a: Seq<char>, s: Seq<char>, b: Seq<char>, t: Seq<char>)
    requires
        a + s == b + t,
        !s.contains('\0'),
        !t.contains('\0'),
        a.len() > 0 ==> a.last() == '\0',
        b.len() > 0 ==> b.last() == '\0',
    ensures
        a == b,
        s == t,
{
    let whole = a + s;
    let other = b + t;
    assert(whole.len() == a.len() + s.len());
    assert(other.len() == b.len() + t.len());
    if a.len() > b.len() {
        assert(whole[a.len() - 1] == '\0');
        assert(other[a.len() - 1] == t[a.len() - 1 - b.len()]);
    } else if a.len() < b.len() {
        assert(other[b.len() - 1] == '\0');
        assert(whole[b.len() - 1] == s[b.len() - 1 - a.len()]);
    }
    assert(a =~= whole.take(a.len() as int));
    assert(b =~= other.take(b.len() as int));
    assert(s =~= whole.skip(a.len() as int));
    assert(t =~= other.skip(b.len() as int));
}

proof fn lemma_same_mount_texts(one: Seq<PersistentMount>, other: Seq<PersistentMount>)
    requires
        mount_text(one) == mount_text(other),
        forall|i: int| 0 <= i < one.len() ==> !(#[trigger] one[i]).source@.contains('\0'),
        forall|i: int| 0 <= i < other.len() ==> !(#[trigger] other[i]).source@.contains('\0'),
    ensures
        mount_views(one) == mount_views(other),
    decreases one.len(),
{
    reveal_strlit("read-only");
    reveal_strlit("read-write");
    if one.len() > 0 && other.len() > 0 {
        let whole = mount_text(one);
        let a = mount_text(one.drop_last());
        let b = mount_text(other.drop_last());
        let s = one.last().source@;
        let t = other.last().source@;
        let n = access_name(one.last().access);
        let m = access_name(other.last().access);
        assert(whole[whole.len() - 2] == n.last());
        assert(whole[whole.len() - 2] == m.last());
        assert(n.last() == if one.last().access == MountAccess::ReadOnly {
            'y'
        } else {
            'e'
        });
        assert(one.last().access == other.last().access);
        let k = whole.len() - n.len() - 2;
        assert(a + s =~= whole.take(k));
        assert(b + t =~= whole.take(k));
        lemma_same_back(a, s, b, t);
        assert forall|i: int| 0 <= i < one.drop_last().len() implies !(
        #[trigger] one.drop_last()[i]).source@.contains('\0') by {
            assert(one.drop_last()[i] == one[i]);
        }
        assert forall|i: int| 0 <= i < other.drop_last().len() implies !(
        #[trigger] other.drop_last()[i]).source@.contains('\0') by {
            assert(other.drop_last()[i] == other[i]);
        }
        lemma_same_mount_texts(one.drop_last(), other.drop_last());
        assert(mount_views(one) =~= mount_views(one.drop_last()).push((s, one.last().access)));
        assert(mount_views(other) =~= mount_views(other.drop_last()).push(
            (t, other.last().access),
        ));
    } else {
        assert(mount_views(one) =~= mount_views(other));
    }
}

/// Different mounts are fingerprinted by different bytes, whether they differ in a source, in an
/// access, in their number or in their order. No path holds a zero character.
pub proof fn law_different_mounts_have_different_bytes(
    one: Seq<PersistentMount>,
    other: Seq<PersistentMount>,
)
    requires
        mount_bytes(one) == mount_bytes(other),
        forall|i: int| 0 <= i < one.len() ==> !(#[trigger] one[i]).source@.contains('\0'),
        forall|i: int| 0 <= i < other.len() ==> !(#[trigger] other[i]).source@.contains('\0'),
    ensures
        mount_views(one) == mount_views(other),
{
    lemma_mount_text(one);
    lemma_mount_text(other);
    encode_utf8_decode_utf8(mount_text(one));
    encode_utf8_decode_utf8(mount_text(other));
    lemma_same_mount_texts(one, other);
}

/// An enrollment in which everything goes well inspects every directory in order, then writes the
/// record, then grants every directory in order, then completes the record.
pub proof fn law_enrollment_goes_in_order(outcomes: Seq<Result<(), SandboxError>>, count: nat)
    requires
        count <= usize::MAX,
        forall|i: int| 0 <= i < outcomes.len() ==> (#[trigger] outcomes[i]) is Ok,
    ensures
        ({
            let n = outcomes.len();
            let action = enrolled_after(outcomes, count).next_action();
            &&& n < count ==> action == EnrollAction::Inspect(n as usize)
            &&& n == count ==> action == EnrollAction::WriteRecord
            &&& count < n <= 2 * count ==> action == EnrollAction::Grant((n - count - 1) as usize)
            &&& n == 2 * count + 1 ==> action == EnrollAction::CompleteRecord
            &&& n > 2 * count + 1 ==> action == EnrollAction::Finish && enrolled_after(
                outcomes,
                count,
            ) is Enrolled
        }),
    decreases outcomes.len(),
{
    if outcomes.len() > 0 {
        law_enrollment_goes_in_order(outcomes.drop_last(), count);
        assert(outcomes.last() is Ok);
    }
}

/// The first thing that goes wrong ends an enrollment with its error. Where it was an inspection or
/// the record, nothing more is done; where it was a grant, what was granted before is taken back,
/// the last first, and the record removed, however each of that goes; where it was the completion
/// of the record, the grants stand.
pub proof fn law_failed_enrollment_goes_back(
    outcomes: Seq<Result<(), SandboxError>>,
    n: nat,
    count: nat,
)
    requires
        count <= usize::MAX,
        n < outcomes.len(),
        n <= 2 * count + 1,
        forall|i: int| 0 <= i < n ==> (#[trigger] outcomes[i]) is Ok,
        outcomes[n as int] is Err,
    ensures
        ({
            let error = outcomes[n as int]->Err_0;
            let stage = enrolled_after(outcomes, count);
            let since = outcomes.len() - n - 1;
            let granted = n - count - 1;
            &&& n <= count ==> stage == EnrollStage::Failed(error)
            &&& count < n <= 2 * count ==> {
                &&& since < granted ==> stage.next_action() == EnrollAction::Revoke(
                    (granted - 1 - since) as usize,
                )
                &&& since == granted ==> stage.next_action() == EnrollAction::RemoveRecord
                &&& since > granted ==> stage == EnrollStage::Failed(error)
            }
            &&& n == 2 * count + 1 ==> stage == EnrollStage::Unrecorded(error)
        }),
{
    lemma_enrollment_goes_back(outcomes, n, count);
}

proof fn lemma_enrollment_goes_back(
    outcomes: Seq<Result<(), SandboxError>>,
    n: nat,
    count: nat,
)
    requires
        count <= usize::MAX,
        n < outcomes.len(),
        n <= 2 * count + 1,
        forall|i: int| 0 <= i < n ==> (#[trigger] outcomes[i]) is Ok,
        outcomes[n as int] is Err,
    ensures
        ({
            let error = outcomes[n as int]->Err_0;
            let since = outcomes.len() - n - 1;
            let granted = n - count - 1;
            enrolled_after(outcomes, count) == if n <= count {
                EnrollStage::Failed(error)
            } else if n == 2 * count + 1 {
                EnrollStage::Unrecorded(error)
            } else if since < granted {
                EnrollStage::Revoking((granted - 1 - since) as usize, error)
            } else if since == granted {
                EnrollStage::RemovingRecord(error)
            } else {
                EnrollStage::Failed(error)
            }
        }),
    decreases outcomes.len(),
{
    let earlier = outcomes.drop_last();
    if outcomes.len() == n + 1 {
        assert forall|i: int| 0 <= i < earlier.len() implies (#[trigger] earlier[i]) is Ok by {
            assert(earlier[i] == outcomes[i]);
        }
        law_enrollment_goes_in_order(earlier, count);
    } else {
        assert forall|i: int| 0 <= i < n implies (#[trigger] earlier[i]) is Ok by {
            assert(earlier[i] == outcomes[i]);
        }
        assert(earlier[n as int] == outcomes[n as int]);
        lemma_enrollment_goes_back(earlier, n, count);
    }
}

} // verus!
