//! The upgrade of what a package's authorization only reads. The directories that are written to
//! are not touched by it.
use vstd::prelude::*;
use vstd::string::*;

use crate::authorization::{
    begins_with, enrolled_mounts, is_complete, lemma_enrolled_sources, mount_sources, mount_views,
    same_texts, sources_in, writable, Grantee, PersistentAuthorization, PersistentMount,
};
use crate::protocol::MountAccess;
use crate::text::{same_text, texts};
use crate::windows_user_backend::push_all;

verus! {

/// What a record of an authorization says.
pub ghost struct RecordView {
    pub version: u8,
    pub sid: Seq<char>,
    pub policy_fingerprint: Seq<char>,
    pub mounts: Seq<(Seq<char>, MountAccess)>,
    pub granted: Seq<Seq<char>>,
}

impl View for PersistentAuthorization {
    type V = RecordView;

    open spec fn view(&self) -> RecordView {
        RecordView {
            version: self.version,
            sid: self.sid@,
            policy_fingerprint: self.policy_fingerprint@,
            mounts: mount_views(self.mounts@),
            granted: texts(self.granted@),
        }
    }
}

/// One thing to do when an authorization is upgraded.
#[derive(Debug, Clone, PartialEq, Eq)]
pub enum UpgradeStep {
    /// Keep this record in place of the one before.
    Record(PersistentAuthorization),
    Grant(PersistentMount),
    Revoke(String),
}

pub ghost enum UpgradeStepView {
    Record(RecordView),
    Grant(Seq<char>, MountAccess),
    Revoke(Seq<char>),
}

impl View for UpgradeStep {
    type V = UpgradeStepView;

    open spec fn view(&self) -> UpgradeStepView {
        match self {
            UpgradeStep::Record(record) => UpgradeStepView::Record(record@),
            UpgradeStep::Grant(mount) => UpgradeStepView::Grant(mount.source@, mount.access),
            UpgradeStep::Revoke(path) => UpgradeStepView::Revoke(path@),
        }
    }
}

pub open spec fn step_views(steps: Seq<UpgradeStep>) -> Seq<UpgradeStepView> {
    steps.map_values(|step: UpgradeStep| step@)
}

/// The texts of a list that are not in another, in order.
pub open spec fn without(list: Seq<Seq<char>>, others: Seq<Seq<char>>) -> Seq<Seq<char>>
    decreases list.len(),
{
    if list.len() == 0 {
        Seq::empty()
    } else if others.contains(list.last()) {
        without(list.drop_last(), others)
    } else {
        without(list.drop_last(), others).push(list.last())
    }
}

/// The mounts whose source is not in a list, in order.
pub open spec fn unknown(
    mounts: Seq<(Seq<char>, MountAccess)>,
    known: Seq<Seq<char>>,
) -> Seq<(Seq<char>, MountAccess)>
    decreases mounts.len(),
{
    if mounts.len() == 0 {
        Seq::empty()
    } else if known.contains(mounts.last().0) {
        unknown(mounts.drop_last(), known)
    } else {
        unknown(mounts.drop_last(), known).push(mounts.last())
    }
}

/// Whether a record says that all of its mounts are granted.
pub open spec fn holds_its_mounts(record: RecordView) -> bool {
    sources_in(record.mounts).is_prefix_of(record.granted)
}

/// What is granted for certain under a record: its mounts, where its enrollment came to its end.
pub open spec fn held(record: RecordView) -> Seq<Seq<char>> {
    if holds_its_mounts(record) {
        sources_in(record.mounts)
    } else {
        Seq::empty()
    }
}

/// The mounts that are to be granted in an upgrade.
pub open spec fn added(
    record: RecordView,
    mounts: Seq<(Seq<char>, MountAccess)>,
) -> Seq<(Seq<char>, MountAccess)> {
    unknown(mounts, held(record))
}

/// The paths that are to be revoked in an upgrade.
pub open spec fn stale(record: RecordView, mounts: Seq<(Seq<char>, MountAccess)>) -> Seq<
    Seq<char>,
> {
    without(record.granted, sources_in(mounts))
}

/// The record that stands during an upgrade: it still is that of the mounts before, and names what
/// is being granted besides.
pub open spec fn widened(
    record: RecordView,
    mounts: Seq<(Seq<char>, MountAccess)>,
) -> RecordView {
    RecordView {
        granted: record.granted + without(sources_in(added(record, mounts)), record.granted),
        ..record
    }
}

/// The steps from a record to the one that was refreshed with other mounts: first everything that
/// will be granted is written down, then it is granted, then what is not mounted any more is
/// revoked, and last the new record is kept. Nothing is done where the record already is the new
/// one.
pub open spec fn upgrade_of(record: RecordView, refreshed: RecordView) -> Seq<UpgradeStepView> {
    let mounts = refreshed.mounts;
    let renewed = RecordView { granted: sources_in(mounts), ..refreshed };
    if record == renewed {
        Seq::empty()
    } else {
        seq![UpgradeStepView::Record(widened(record, mounts))] + added(record, mounts).map_values(
            |m: (Seq<char>, MountAccess)| UpgradeStepView::Grant(m.0, m.1),
        ) + stale(record, mounts).map_values(|path: Seq<char>| UpgradeStepView::Revoke(path))
            + seq![UpgradeStepView::Record(renewed)]
    }
}

/// What is granted after steps.
pub open spec fn granted_after(granted: Set<Seq<char>>, steps: Seq<UpgradeStepView>) -> Set<
    Seq<char>,
>
    decreases steps.len(),
{
    if steps.len() == 0 {
        granted
    } else {
        let before = granted_after(granted, steps.drop_last());
        match steps.last() {
            UpgradeStepView::Record(_) => before,
            UpgradeStepView::Grant(path, _) => before.insert(path),
            UpgradeStepView::Revoke(path) => before.remove(path),
        }
    }
}

/// The record that stands after steps.
pub open spec fn record_after(record: RecordView, steps: Seq<UpgradeStepView>) -> RecordView
    decreases steps.len(),
{
    if steps.len() == 0 {
        record
    } else {
        match steps.last() {
            UpgradeStepView::Record(kept) => kept,
            _ => record_after(record, steps.drop_last()),
        }
    }
}

proof fn lemma_without(list: Seq<Seq<char>>, others: Seq<Seq<char>>, text: Seq<char>)
    ensures
        without(list, others).contains(text) <==> list.contains(text) && !others.contains(text),
    decreases list.len(),
{
    if list.len() > 0 {
        let fewer = list.drop_last();
        lemma_without(fewer, others, text);
        lemma_contains_push(fewer, list.last(), text);
        lemma_contains_push(without(fewer, others), list.last(), text);
        assert(fewer.push(list.last()) =~= list);
    }
}

proof fn lemma_unknown(
    mounts: Seq<(Seq<char>, MountAccess)>,
    known: Seq<Seq<char>>,
    mount: (Seq<char>, MountAccess),
)
    ensures
        unknown(mounts, known).contains(mount) <==> mounts.contains(mount) && !known.contains(
            mount.0,
        ),
    decreases mounts.len(),
{
    if mounts.len() > 0 {
        let fewer = mounts.drop_last();
        lemma_unknown(fewer, known, mount);
        lemma_contains_push(fewer, mounts.last(), mount);
        lemma_contains_push(unknown(fewer, known), mounts.last(), mount);
        assert(fewer.push(mounts.last()) =~= mounts);
    }
}

proof fn lemma_contains_push<T>(list: Seq<T>, last: T, item: T)
    ensures
        list.push(last).contains(item) <==> list.contains(item) || item == last,
{
    let more = list.push(last);
    if list.contains(item) {
        let i = choose|i: int| 0 <= i < list.len() && list[i] == item;
        assert(more[i] == item);
    }
    if item == last {
        assert(more[list.len() as int] == item);
    }
    if more.contains(item) {
        let i = choose|i: int| 0 <= i < more.len() && more[i] == item;
        if i < list.len() {
            assert(list[i] == item);
        }
    }
}

/// Whether a list of texts holds a text.
fn holds(list: &Vec<String>, text: &str) -> (r: bool)
    ensures
        r == texts(list@).contains(text@),
{
    let mut i: usize = 0;
    while i < list.len()
        invariant
            i <= list@.len(),
            forall|j: int| 0 <= j < i ==> #[trigger] texts(list@)[j] != text@,
        decreases list@.len() - i,
    {
        assert(texts(list@)[i as int] == list@[i as int]@);
        if same_text(&list[i], text) {
            return true;
        }
        i = i + 1;
    }
    assert(texts(list@).len() == list@.len());
    false
}

/// The texts of a list that are not in another.
fn texts_without(list: &Vec<String>, others: &Vec<String>) -> (r: Vec<String>)
    ensures
        texts(r@) == without(texts(list@), texts(others@)),
{
    let ghost all = texts(list@);
    let mut kept: Vec<String> = Vec::new();
    let mut i: usize = 0;
    proof {
        assert(all.take(0) =~= Seq::<Seq<char>>::empty());
        assert(texts(kept@) =~= Seq::<Seq<char>>::empty());
    }
    while i < list.len()
        invariant
            i <= list@.len(),
            all == texts(list@),
            texts(kept@) == without(all.take(i as int), texts(others@)),
        decreases list@.len() - i,
    {
        let ghost before = texts(kept@);
        proof {
            assert(all.take(i + 1).drop_last() =~= all.take(i as int));
            assert(all.take(i + 1).last() == list@[i as int]@);
        }
        if !holds(others, &list[i]) {
            kept.push(list[i].clone());
            assert(texts(kept@) =~= before.push(list@[i as int]@));
        }
        i = i + 1;
    }
    proof {
        assert(all.take(i as int) =~= all);
    }
    kept
}

/// The mounts whose source is not in a list.
fn unknown_mounts(mounts: &Vec<PersistentMount>, known: &Vec<String>) -> (r: Vec<PersistentMount>)
    ensures
        mount_views(r@) == unknown(mount_views(mounts@), texts(known@)),
{
    let ghost all = mount_views(mounts@);
    let mut kept: Vec<PersistentMount> = Vec::new();
    let mut i: usize = 0;
    proof {
        assert(all.take(0) =~= Seq::<(Seq<char>, MountAccess)>::empty());
        assert(mount_views(kept@) =~= Seq::<(Seq<char>, MountAccess)>::empty());
    }
    while i < mounts.len()
        invariant
            i <= mounts@.len(),
            all == mount_views(mounts@),
            mount_views(kept@) == unknown(all.take(i as int), texts(known@)),
        decreases mounts@.len() - i,
    {
        let mount = &mounts[i];
        let ghost before = mount_views(kept@);
        proof {
            assert(all.take(i + 1).drop_last() =~= all.take(i as int));
            assert(all.take(i + 1).last() == (mount.source@, mount.access));
        }
        if !holds(known, &mount.source) {
            kept.push(PersistentMount { source: mount.source.clone(), access: mount.access });
            assert(mount_views(kept@) =~= before.push((mount.source@, mount.access)));
        }
        i = i + 1;
    }
    proof {
        assert(all.take(i as int) =~= all);
    }
    kept
}

/// Whether two lists of mounts are the same.
fn same_mounts(a: &Vec<PersistentMount>, b: &Vec<PersistentMount>) -> (r: bool)
    ensures
        r == (mount_views(a@) == mount_views(b@)),
{
    if a.len() != b.len() {
        assert(mount_views(a@).len() != mount_views(b@).len());
        return false;
    }
    let mut i: usize = 0;
    while i < a.len()
        invariant
            i <= a@.len() == b@.len(),
            forall|j: int| 0 <= j < i ==> mount_views(a@)[j] == #[trigger] mount_views(b@)[j],
        decreases a@.len() - i,
    {
        proof {
            assert(mount_views(a@)[i as int] == (a@[i as int].source@, a@[i as int].access));
            assert(mount_views(b@)[i as int] == (b@[i as int].source@, b@[i as int].access));
        }
        if !same_text(&a[i].source, &b[i].source) || a[i].access != b[i].access {
            return false;
        }
        i = i + 1;
    }
    assert(mount_views(a@) =~= mount_views(b@));
    true
}

/// The record that stands during an upgrade.
fn widen(record: &PersistentAuthorization, added: &Vec<PersistentMount>) -> (r:
    PersistentAuthorization)
    ensures
        r@ == (RecordView {
            granted: record@.granted + without(
                sources_in(mount_views(added@)),
                record@.granted,
            ),
            ..record@
        }),
{
    let missing = texts_without(&mount_sources(added), &record.granted);
    let mut granted: Vec<String> = Vec::new();
    push_all(&mut granted, &record.granted);
    push_all(&mut granted, &missing);
    proof {
        lemma_enrolled_sources(record.mounts@);
        assert(texts(granted@) =~= record@.granted + texts(missing@));
    }
    PersistentAuthorization {
        version: record.version,
        sid: record.sid.clone(),
        policy_fingerprint: record.policy_fingerprint.clone(),
        mounts: enrolled_mounts(&record.mounts, Grantee::Package),
        granted,
    }
}

/// What to do, one step after another until one fails, to bring the authorization of a package
/// from its record to the one that was refreshed with other mounts.
pub fn upgrade_steps(record: &PersistentAuthorization, refreshed: PersistentAuthorization) -> (r:
    Vec<UpgradeStep>)
    ensures
        step_views(r@) == upgrade_of(record@, refreshed@),
{
    let mounts = mount_sources(&refreshed.mounts);
    let mut steps: Vec<UpgradeStep> = Vec::new();
    let ghost renewed = RecordView { granted: sources_in(refreshed@.mounts), ..refreshed@ };
    if record.version == refreshed.version && same_text(&record.sid, &refreshed.sid) && same_text(
        &record.policy_fingerprint,
        &refreshed.policy_fingerprint,
    ) && same_mounts(&record.mounts, &refreshed.mounts) && same_texts(&record.granted, &mounts) {
        assert(record@ == renewed);
        assert(step_views(steps@) =~= upgrade_of(record@, refreshed@));
        return steps;
    }
    assert(record@ != renewed);
    let sources = mount_sources(&record.mounts);
    let held = if begins_with(&record.granted, &sources) {
        sources
    } else {
        Vec::new()
    };
    assert(texts(held@) =~= self::held(record@));
    let added = unknown_mounts(&refreshed.mounts, &held);
    let stale = texts_without(&record.granted, &mounts);
    let ghost grants = mount_views(added@).map_values(
        |m: (Seq<char>, MountAccess)| UpgradeStepView::Grant(m.0, m.1),
    );
    let ghost revocations = texts(stale@).map_values(
        |path: Seq<char>| UpgradeStepView::Revoke(path),
    );
    let widened = widen(record, &added);
    let ghost first = seq![UpgradeStepView::Record(widened@)];
    steps.push(UpgradeStep::Record(widened));
    assert(step_views(steps@) =~= first + grants.take(0));
    let mut i: usize = 0;
    while i < added.len()
        invariant
            i <= added@.len(),
            grants == mount_views(added@).map_values(
                |m: (Seq<char>, MountAccess)| UpgradeStepView::Grant(m.0, m.1),
            ),
            step_views(steps@) == first + grants.take(i as int),
        decreases added@.len() - i,
    {
        let ghost before = step_views(steps@);
        let mount = &added[i];
        let copy = PersistentMount { source: mount.source.clone(), access: mount.access };
        steps.push(UpgradeStep::Grant(copy));
        proof {
            assert(step_views(steps@) =~= before.push(
                UpgradeStepView::Grant(mount.source@, mount.access),
            ));
            assert(grants[i as int] == UpgradeStepView::Grant(mount.source@, mount.access));
            assert(step_views(steps@) =~= first + grants.take(i + 1));
        }
        i = i + 1;
    }
    assert(step_views(steps@) =~= first + grants + revocations.take(0));
    let mut k: usize = 0;
    while k < stale.len()
        invariant
            k <= stale@.len(),
            revocations == texts(stale@).map_values(
                |path: Seq<char>| UpgradeStepView::Revoke(path),
            ),
            step_views(steps@) == first + grants + revocations.take(k as int),
        decreases stale@.len() - k,
    {
        let ghost before = step_views(steps@);
        steps.push(UpgradeStep::Revoke(stale[k].clone()));
        proof {
            assert(step_views(steps@) =~= before.push(
                UpgradeStepView::Revoke(stale@[k as int]@),
            ));
            assert(revocations[k as int] == UpgradeStepView::Revoke(stale@[k as int]@));
            assert(step_views(steps@) =~= first + grants + revocations.take(k + 1));
        }
        k = k + 1;
    }
    let ghost before = step_views(steps@);
    let last = PersistentAuthorization { granted: mounts, ..refreshed };
    assert(last@ == renewed);
    steps.push(UpgradeStep::Record(last));
    proof {
        assert(step_views(steps@) =~= before.push(UpgradeStepView::Record(renewed)));
        assert(step_views(steps@) =~= upgrade_of(record@, refreshed@));
    }
    steps
}

/// What stands at the places of an upgrade.
proof fn lemma_step_at(record: RecordView, refreshed: RecordView)
    ensures
        ({
            let steps = upgrade_of(record, refreshed);
            let mounts = refreshed.mounts;
            let grants = added(record, mounts);
            let revocations = stale(record, mounts);
            steps.len() > 0 ==> {
                &&& steps.len() == 2 + grants.len() + revocations.len()
                &&& steps[0] == UpgradeStepView::Record(widened(record, mounts))
                &&& steps.last() == UpgradeStepView::Record(
                    RecordView { granted: sources_in(mounts), ..refreshed },
                )
                &&& forall|i: int|
                    0 < i <= grants.len() ==> #[trigger] steps[i] == UpgradeStepView::Grant(
                        grants[i - 1].0,
                        grants[i - 1].1,
                    )
                &&& forall|i: int|
                    grants.len() < i < steps.len() - 1 ==> #[trigger] steps[i]
                        == UpgradeStepView::Revoke(revocations[i - 1 - grants.len()])
            }
        }),
{
}

proof fn lemma_upgrade(
    record: RecordView,
    refreshed: RecordView,
    granted: Set<Seq<char>>,
    k: int,
    path: Seq<char>,
)
    requires
        0 <= k <= upgrade_of(record, refreshed).len(),
    ensures
        ({
            let steps = upgrade_of(record, refreshed);
            let mounts = refreshed.mounts;
            let grants = added(record, mounts);
            let revocations = stale(record, mounts);
            let after = granted_after(granted, steps.take(k));
            &&& after.contains(path) ==> granted.contains(path) || sources_in(grants).contains(path)
            &&& granted.contains(path) && !revocations.contains(path) ==> after.contains(path)
            &&& forall|i: int|
                0 <= i < grants.len() && i + 1 < k && #[trigger] grants[i].0 == path
                    && !revocations.contains(path) ==> after.contains(path)
            &&& forall|i: int|
                0 <= i < revocations.len() && i + 1 + grants.len() < k && #[trigger] revocations[i]
                    == path ==> !after.contains(path)
            &&& record_after(record, steps.take(k)) == if k == 0 {
                record
            } else if k < steps.len() {
                widened(record, mounts)
            } else {
                RecordView { granted: sources_in(mounts), ..refreshed }
            }
        }),
    decreases k,
{
    let steps = upgrade_of(record, refreshed);
    let grants = added(record, refreshed.mounts);
    let revocations = stale(record, refreshed.mounts);
    if k > 0 {
        lemma_upgrade(record, refreshed, granted, k - 1, path);
        lemma_step_at(record, refreshed);
        assert(steps.take(k).drop_last() =~= steps.take(k - 1));
        assert(steps.take(k).last() == steps[k - 1]);
        if 1 < k <= 1 + grants.len() {
            assert(sources_in(grants)[k - 2] == grants[k - 2].0);
            assert(sources_in(grants).contains(grants[k - 2].0));
        }
        if 1 + grants.len() < k < steps.len() {
            assert(revocations.contains(revocations[k - 2 - grants.len()]));
        }
    }
}

/// However far an upgrade comes, everything that is granted is named by the record that stands, so
/// that it is taken back when the authorization is retired; and until the upgrade has come to its
/// end, that record is the one of the mounts before, so that the upgrade is made again. A record
/// whose enrollment came to its end still says so.
pub proof fn law_upgrade_is_recorded(
    record: RecordView,
    refreshed: RecordView,
    granted: Set<Seq<char>>,
    k: int,
    path: Seq<char>,
)
    requires
        0 <= k <= upgrade_of(record, refreshed).len(),
        forall|p: Seq<char>| #[trigger] granted.contains(p) ==> record.granted.contains(p),
        granted_after(granted, upgrade_of(record, refreshed).take(k)).contains(path),
    ensures
        record_after(record, upgrade_of(record, refreshed).take(k)).granted.contains(path),
        k < upgrade_of(record, refreshed).len() ==> record_after(
            record,
            upgrade_of(record, refreshed).take(k),
        ).mounts == record.mounts,
        holds_its_mounts(record) ==> holds_its_mounts(
            record_after(record, upgrade_of(record, refreshed).take(k)),
        ),
{
    let steps = upgrade_of(record, refreshed);
    let mounts = refreshed.mounts;
    let grants = added(record, mounts);
    let revocations = stale(record, mounts);
    let missing = without(sources_in(grants), record.granted);
    lemma_upgrade(record, refreshed, granted, k, path);
    lemma_step_at(record, refreshed);
    lemma_without(sources_in(grants), record.granted, path);
    lemma_without(record.granted, sources_in(mounts), path);
    let standing = record_after(record, steps.take(k));
    let sources = sources_in(standing.mounts);
    if 0 < k < steps.len() {
        lemma_contains_both(record.granted, missing, path);
        if holds_its_mounts(record) {
            assert(standing.granted.subrange(0, sources.len() as int)
                =~= record.granted.subrange(0, sources.len() as int));
        }
    } else if k > 0 && k == steps.len() {
        assert(standing.granted.subrange(0, sources.len() as int) =~= sources);
    }
    if 0 < k < steps.len() {
    } else if k > 0 {
        if sources_in(grants).contains(path) {
            lemma_added_is_mounted(record, mounts, path);
        } else if !sources_in(mounts).contains(path) {
            let i = choose|i: int| 0 <= i < revocations.len() && revocations[i] == path;
            assert(revocations[i] == path);
        }
    }
}

proof fn lemma_contains_both(a: Seq<Seq<char>>, b: Seq<Seq<char>>, text: Seq<char>)
    ensures
        (a + b).contains(text) <==> a.contains(text) || b.contains(text),
{
    if a.contains(text) {
        let i = choose|i: int| 0 <= i < a.len() && a[i] == text;
        assert((a + b)[i] == text);
    }
    if b.contains(text) {
        let i = choose|i: int| 0 <= i < b.len() && b[i] == text;
        assert((a + b)[a.len() + i] == text);
    }
    if (a + b).contains(text) {
        let i = choose|i: int| 0 <= i < (a + b).len() && (a + b)[i] == text;
        if i < a.len() {
            assert(a[i] == text);
        } else {
            assert(b[i - a.len()] == text);
        }
    }
}

proof fn lemma_added_is_mounted(
    record: RecordView,
    mounts: Seq<(Seq<char>, MountAccess)>,
    path: Seq<char>,
)
    ensures
        sources_in(added(record, mounts)).contains(path) <==> sources_in(mounts).contains(path)
            && !held(record).contains(path),
{
    let grants = added(record, mounts);
    if sources_in(grants).contains(path) {
        let i = choose|i: int| 0 <= i < grants.len() && sources_in(grants)[i] == path;
        assert(grants.contains(grants[i]));
        lemma_unknown(mounts, held(record), grants[i]);
        let j = choose|j: int| 0 <= j < mounts.len() && mounts[j] == grants[i];
        assert(sources_in(mounts)[j] == path);
    }
    if sources_in(mounts).contains(path) && !held(record).contains(path) {
        let j = choose|j: int| 0 <= j < mounts.len() && sources_in(mounts)[j] == path;
        assert(mounts.contains(mounts[j]));
        lemma_unknown(mounts, held(record), mounts[j]);
        let i = choose|i: int| 0 <= i < grants.len() && grants[i] == mounts[j];
        assert(sources_in(grants)[i] == path);
    }
}

/// An upgrade that came to its end leaves exactly the new mounts granted, where before nothing was
/// granted but what the record says, and everything that it holds for certain.
pub proof fn law_upgraded_grants_are_the_mounts(
    record: RecordView,
    refreshed: RecordView,
    granted: Set<Seq<char>>,
    path: Seq<char>,
)
    requires
        forall|p: Seq<char>| #[trigger] granted.contains(p) ==> record.granted.contains(p),
        forall|p: Seq<char>| #[trigger] held(record).contains(p) ==> granted.contains(p),
    ensures
        granted_after(granted, upgrade_of(record, refreshed)).contains(path) <==> sources_in(
            refreshed.mounts,
        ).contains(path),
        record_after(record, upgrade_of(record, refreshed)).granted == sources_in(
            refreshed.mounts,
        ),
{
    let steps = upgrade_of(record, refreshed);
    let mounts = refreshed.mounts;
    let grants = added(record, mounts);
    let k = steps.len() as int;
    assert(steps.take(k) =~= steps);
    lemma_upgrade(record, refreshed, granted, k, path);
    lemma_step_at(record, refreshed);
    lemma_without(record.granted, sources_in(mounts), path);
    lemma_added_is_mounted(record, mounts, path);
    if k == 0 {
        assert(sources_in(record.mounts) =~= record.granted);
        assert(record.granted.subrange(0, record.granted.len() as int) =~= record.granted);
    } else {
        if granted_after(granted, steps).contains(path) {
            law_upgrade_is_recorded(record, refreshed, granted, k, path);
        }
        if sources_in(grants).contains(path) {
            let i = choose|i: int| 0 <= i < grants.len() && sources_in(grants)[i] == path;
            assert(grants[i].0 == path);
        }
    }
}

/// An upgrade of an authorization whose enrollment came to its end neither grants nor revokes a
/// directory that is written to: the workspace is not walked.
pub proof fn law_upgrade_leaves_the_workspace(
    record: PersistentAuthorization,
    refreshed: PersistentAuthorization,
    i: int,
)
    requires
        is_complete(record, Grantee::Package),
        writable(record.mounts@) == writable(refreshed.mounts@),
        0 <= i < upgrade_of(record@, refreshed@).len(),
    ensures
        match upgrade_of(record@, refreshed@)[i] {
            UpgradeStepView::Record(_) => true,
            UpgradeStepView::Grant(path, access) => access == MountAccess::ReadOnly
                && !writable(refreshed.mounts@).contains(path),
            UpgradeStepView::Revoke(path) => !writable(refreshed.mounts@).contains(path),
        },
{
    let steps = upgrade_of(record@, refreshed@);
    let mounts = refreshed@.mounts;
    let grants = added(record@, mounts);
    let revocations = stale(record@, mounts);
    lemma_step_at(record@, refreshed@);
    lemma_enrolled_sources(record.mounts@);
    assert(holds_its_mounts(record@));
    if 0 < i <= grants.len() {
        let mount = grants[i - 1];
        assert(grants.contains(mount));
        lemma_unknown(mounts, held(record@), mount);
        lemma_writable(record.mounts@, mount.0);
        lemma_writable(refreshed.mounts@, mount.0);
        if mount.1 == MountAccess::ReadWrite {
            let j = choose|j: int| 0 <= j < mounts.len() && mounts[j] == mount;
            assert(refreshed.mounts@[j].access == MountAccess::ReadWrite);
        }
    } else if grants.len() < i < steps.len() - 1 {
        let path = revocations[i - 1 - grants.len()];
        assert(revocations.contains(path));
        lemma_without(record@.granted, sources_in(mounts), path);
        lemma_writable(refreshed.mounts@, path);
    }
}

/// What is written to are the sources of the mounts with that access.
proof fn lemma_writable(mounts: Seq<PersistentMount>, path: Seq<char>)
    ensures
        writable(mounts).contains(path) <==> exists|j: int|
            0 <= j < mounts.len() && (#[trigger] mounts[j]).source@ == path && mounts[j].access
                == MountAccess::ReadWrite,
        writable(mounts).contains(path) ==> sources_in(mount_views(mounts)).contains(path),
    decreases mounts.len(),
{
    if mounts.len() > 0 {
        let fewer = mounts.drop_last();
        lemma_writable(fewer, path);
        lemma_contains_push(writable(fewer), mounts.last().source@, path);
        if exists|j: int|
            0 <= j < fewer.len() && (#[trigger] fewer[j]).source@ == path && fewer[j].access
                == MountAccess::ReadWrite {
            let j = choose|j: int|
                0 <= j < fewer.len() && (#[trigger] fewer[j]).source@ == path && fewer[j].access
                    == MountAccess::ReadWrite;
            assert(mounts[j].source@ == path);
        }
        if exists|j: int|
            0 <= j < mounts.len() && (#[trigger] mounts[j]).source@ == path && mounts[j].access
                == MountAccess::ReadWrite {
            let j = choose|j: int|
                0 <= j < mounts.len() && (#[trigger] mounts[j]).source@ == path && mounts[j].access
                    == MountAccess::ReadWrite;
            if j < fewer.len() {
                assert(fewer[j].source@ == path);
            }
            assert(sources_in(mount_views(mounts))[j] == path);
        }
        if mounts.last().access == MountAccess::ReadWrite && mounts.last().source@ == path {
            assert(mounts[mounts.len() - 1].source@ == path);
        }
    }
}

/// An upgrade grants nothing but mounts of the new list, each with the access that it has there, and
/// grants no mount that is held already; it revokes nothing that is in the new list.
pub proof fn law_upgrade_grants_the_new_mounts(record: RecordView, refreshed: RecordView, i: int)
    requires
        0 <= i < upgrade_of(record, refreshed).len(),
    ensures
        match upgrade_of(record, refreshed)[i] {
            UpgradeStepView::Record(kept) => i == 0 && kept.mounts == record.mounts || i
                == upgrade_of(record, refreshed).len() - 1 && kept.mounts == refreshed.mounts,
            UpgradeStepView::Grant(path, access) => refreshed.mounts.contains((path, access)) && (
            holds_its_mounts(record) ==> !sources_in(record.mounts).contains(path)),
            UpgradeStepView::Revoke(path) => record.granted.contains(path) && !sources_in(
                refreshed.mounts,
            ).contains(path),
        },
{
    let steps = upgrade_of(record, refreshed);
    let mounts = refreshed.mounts;
    let grants = added(record, mounts);
    let revocations = stale(record, mounts);
    lemma_step_at(record, refreshed);
    if 0 < i <= grants.len() {
        assert(grants.contains(grants[i - 1]));
        lemma_unknown(mounts, held(record), grants[i - 1]);
    } else if grants.len() < i < steps.len() - 1 {
        let path = revocations[i - 1 - grants.len()];
        assert(revocations.contains(path));
        lemma_without(record.granted, sources_in(mounts), path);
    }
}

} // verus!
