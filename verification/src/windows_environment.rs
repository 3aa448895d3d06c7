//! The environment block of a Windows process.
use vstd::prelude::*;
use vstd::string::*;
use vstd::utf8::*;

use crate::string_map::StringMap;
use crate::text::{
    ascii_lower, ascii_upper, bytes_of, chars_of, lemma_text_lt_transitive, lemma_text_lt_total, lower_text,
    string_of, text_before, text_lt, texts, upper_char,
};

verus! {

/// A variable and its value, in the bytes in which the system hands it on: where it is text, those
/// of its UTF-8 form.
pub type Entry = (String, Vec<u8>);

/// What an entry says.
pub type EntryText = (Seq<char>, Seq<u8>);

/// The text by which variables are ordered.
pub open spec fn order_key(name: Seq<char>) -> Seq<char> {
    name.map_values(|c: char| ascii_lower(c))
}

pub open spec fn entry_key(entry: EntryText) -> Seq<char> {
    order_key(entry.0)
}

/// The entries whose names differ from `key` at most in the case of ASCII letters.
pub open spec fn named(entries: Seq<EntryText>, key: Seq<char>) -> Seq<EntryText> {
    entries.filter(|e: EntryText| entry_key(e) == key)
}

/// No entry comes before one that it should follow.
pub open spec fn in_order(entries: Seq<EntryText>) -> bool {
    forall|i: int, j: int|
        0 <= i < j < entries.len() ==> !text_lt(
            entry_key(#[trigger] entries[j]),
            entry_key(#[trigger] entries[i]),
        )
}

/// Whether the second list is the first in order, with entries of the same name left as they
/// were.
pub open spec fn is_sorted_form(entries: Seq<EntryText>, sorted: Seq<EntryText>) -> bool {
    &&& sorted.len() == entries.len()
    &&& in_order(sorted)
    &&& forall|key: Seq<char>| #[trigger] named(sorted, key) == named(entries, key)
}

/// The variables of the host that every process gets where the host has them.
pub open spec fn host_names() -> Seq<Seq<char>> {
    seq![
        "ALLUSERSPROFILE"@,
        "APPDATA"@,
        "CommonProgramFiles"@,
        "CommonProgramFiles(x86)"@,
        "CommonProgramW6432"@,
        "HOMEDRIVE"@,
        "HOMEPATH"@,
        "LOCALAPPDATA"@,
        "OS"@,
        "ProgramData"@,
        "ProgramFiles"@,
        "ProgramFiles(x86)"@,
        "ProgramW6432"@,
        "PUBLIC"@,
        "SYSTEMDRIVE"@,
        "USERPROFILE"@,
    ]
}

/// The names of a list for which the host has a value, with it.
pub open spec fn host_entries(
    host: Map<Seq<char>, Vec<u8>>,
    names: Seq<Seq<char>>,
) -> Seq<EntryText>
    decreases names.len(),
{
    if names.len() == 0 {
        Seq::empty()
    } else {
        let before = host_entries(host, names.drop_last());
        if host.contains_key(names.last()) {
            before.push((names.last(), host[names.last()]@))
        } else {
            before
        }
    }
}

/// The variable that holds the working directory of a drive, where the directory begins with one.
pub open spec fn drive_entry(workdir: Seq<char>) -> Seq<EntryText> {
    if workdir.len() >= 2 && workdir[0] <= '\u{7f}' && workdir[1] == ':' {
        seq![(seq!['=', ascii_upper(workdir[0]), ':'], encode_utf8(workdir))]
    } else {
        Seq::empty()
    }
}

/// What the entries of a request say.
pub open spec fn request_texts(entries: Seq<(String, String)>) -> Seq<EntryText> {
    entries.map_values(|e: (String, String)| (e.0@, encode_utf8(e.1@)))
}

pub open spec fn entry_texts(entries: Seq<Entry>) -> Seq<EntryText> {
    entries.map_values(|e: Entry| (e.0@, e.1@))
}

/// The variables of a request.
pub open spec fn requested_entries(requested: StringMap<String>) -> Seq<EntryText> {
    requested.pairs().map_values(|pair: (Seq<char>, String)| (pair.0, encode_utf8(pair.1@)))
}

/// The variables that a process cannot do without.
pub open spec fn essential_names() -> Seq<Seq<char>> {
    seq!["SystemRoot"@, "windir"@, "ComSpec"@, "PATHEXT"@, "TEMP"@, "TMP"@, "PATH"@]
}

/// Whether some entry has the name.
pub open spec fn names(entries: Seq<EntryText>, name: Seq<char>) -> bool {
    exists|i: int| 0 <= i < entries.len() && (#[trigger] entries[i]).0 == name
}

/// Whether the second list is the first and, behind it, values for essential variables that it
/// does not name, in their order and each at most once.
pub open spec fn is_merged(requested: Seq<EntryText>, merged: Seq<EntryText>) -> bool {
    &&& requested.is_prefix_of(merged)
    &&& forall|i: int|
        requested.len() <= i < merged.len() ==> essential_names().contains(
            (#[trigger] merged[i]).0,
        ) && !names(requested, merged[i].0)
    &&& forall|i: int, j: int|
        requested.len() <= i < j < merged.len() ==> essential_names().index_of(
            (#[trigger] merged[i]).0,
        ) < essential_names().index_of((#[trigger] merged[j]).0)
}

/// What a process gets, before it is put in order: what was merged for it, the host's variables,
/// and the working directory of its drive.
pub open spec fn block(
    merged: Seq<EntryText>,
    host: Map<Seq<char>, Vec<u8>>,
    workdir: Seq<char>,
) -> Seq<EntryText> {
    merged + host_entries(host, host_names()) + drive_entry(workdir)
}

/// Whether a list is the environment block of a process for which these variables were requested:
/// which of the essential variables the daemon itself has, the machine decides.
pub open spec fn is_environment(
    requested: Seq<EntryText>,
    host: Map<Seq<char>, Vec<u8>>,
    workdir: Seq<char>,
    environment: Seq<EntryText>,
) -> bool {
    exists|merged: Seq<EntryText>| #[trigger]
        is_merged(requested, merged) && is_sorted_form(block(merged, host, workdir), environment)
}

proof fn lemma_named_inserted(entries: Seq<EntryText>, at: int, entry: EntryText, key: Seq<char>)
    requires
        0 <= at <= entries.len(),
        in_order(entries),
        at > 0 ==> !text_lt(entry_key(entry), entry_key(entries[at - 1])),
        forall|j: int| at <= j < entries.len() ==> text_lt(entry_key(entry), entry_key(entries[j])),
    ensures
        named(entries.insert(at, entry), key) == if entry_key(entry) == key {
            named(entries, key).push(entry)
        } else {
            named(entries, key)
        },
{
    let pred = |e: EntryText| entry_key(e) == key;
    let front = entries.take(at);
    let back = entries.skip(at);
    let one = seq![entry];
    assert(entries =~= front + back);
    assert(entries.insert(at, entry) =~= front + one + back);
    Seq::filter_distributes_over_add(front, back, pred);
    Seq::filter_distributes_over_add(front + one, back, pred);
    Seq::filter_distributes_over_add(front, one, pred);
    reveal(Seq::filter);
    assert(one.drop_last() =~= Seq::<EntryText>::empty());
    assert(Seq::<EntryText>::empty().filter(pred) =~= Seq::<EntryText>::empty());
    if entry_key(entry) == key {
        back.filter_lemma(pred);
        if back.filter(pred).len() > 0 {
            let found = back.filter(pred)[0];
            lemma_filter_from(back, pred);
            let j = choose|j: int| 0 <= j < back.len() && back[j] == found;
            assert(back[j] == entries[at + j]);
            crate::text::lemma_text_lt_irreflexive(key);
        }
        assert(back.filter(pred) =~= Seq::<EntryText>::empty());
        assert(one.filter(pred) =~= one);
    } else {
        assert(one.filter(pred) =~= Seq::<EntryText>::empty());
    }
}

proof fn lemma_filter_from(entries: Seq<EntryText>, pred: spec_fn(EntryText) -> bool)
    ensures
        forall|i: int|
            0 <= i < entries.filter(pred).len() ==> entries.contains(
                #[trigger] entries.filter(pred)[i],
            ),
    decreases entries.len(),
{
    reveal(Seq::filter);
    if entries.len() > 0 {
        let before = entries.drop_last();
        lemma_filter_from(before, pred);
        assert forall|i: int| 0 <= i < entries.filter(pred).len() implies entries.contains(
            #[trigger] entries.filter(pred)[i],
        ) by {
            if i < before.filter(pred).len() {
                assert(before.contains(before.filter(pred)[i]));
                let k = choose|k: int| 0 <= k < before.len() && before[k] == before.filter(pred)[i];
                assert(entries[k] == entries.filter(pred)[i]);
            } else {
                assert(entries[entries.len() - 1] == entries.filter(pred)[i]);
            }
        }
    }
}

/// Puts the entries in order, as the system expects them.
pub fn sort_environment(entries: Vec<Entry>) -> (r: Vec<Entry>)
    ensures
        is_sorted_form(entry_texts(entries@), entry_texts(r@)),
{
    let ghost given = entry_texts(entries@);
    let mut sorted: Vec<Entry> = Vec::new();
    let mut i: usize = 0;
    proof {
        assert(given.take(0) =~= entry_texts(sorted@));
    }
    while i < entries.len()
        invariant
            i <= entries@.len(),
            given == entry_texts(entries@),
            is_sorted_form(given.take(i as int), entry_texts(sorted@)),
        decreases entries@.len() - i,
    {
        let entry = (entries[i].0.clone(), entries[i].1.clone());
        let key = lower_text(&entry.0);
        let mut at: usize = sorted.len();
        while at > 0 && text_before(&key, &lower_text(&sorted[at - 1].0))
            invariant
                at <= sorted@.len(),
                key@ == order_key(entry.0@),
                forall|j: int|
                    at <= j < sorted@.len() ==> text_lt(
                        key@,
                        entry_key(#[trigger] entry_texts(sorted@)[j]),
                    ),
            decreases at,
        {
            at = at - 1;
        }
        let ghost before = entry_texts(sorted@);
        let ghost said = (entry.0@, entry.1@);
        sorted.insert(at, entry);
        proof {
            let taken = given.take(i + 1);
            let after = entry_texts(sorted@);
            assert(after =~= before.insert(at as int, said));
            assert(taken.drop_last() =~= given.take(i as int));
            assert(taken.last() == said);
            assert forall|k: Seq<char>| #[trigger] named(after, k) == named(taken, k) by {
                lemma_named_inserted(before, at as int, said, k);
                assert(named(before, k) == named(given.take(i as int), k));
                reveal(Seq::filter);
            }
            assert forall|a: int, b: int| 0 <= a < b < after.len() implies !text_lt(
                entry_key(#[trigger] after[b]),
                entry_key(#[trigger] after[a]),
            ) by {
                lemma_order_kept(before, at as int, said, a, b);
            }
        }
        i = i + 1;
    }
    proof {
        assert(given.take(i as int) =~= given);
    }
    sorted
}

proof fn lemma_order_kept(before: Seq<EntryText>, at: int, entry: EntryText, a: int, b: int)
    requires
        in_order(before),
        0 <= at <= before.len(),
        at > 0 ==> !text_lt(entry_key(entry), entry_key(before[at - 1])),
        forall|j: int| at <= j < before.len() ==> text_lt(entry_key(entry), entry_key(before[j])),
        0 <= a < b < before.len() + 1,
    ensures
        !text_lt(
            entry_key(before.insert(at, entry)[b]),
            entry_key(before.insert(at, entry)[a]),
        ),
{
    let after = before.insert(at, entry);
    let key = entry_key(entry);
    if a == at {
        let other = entry_key(before[b - 1]);
        if text_lt(other, key) {
            lemma_text_lt_transitive(key, other, key);
            crate::text::lemma_text_lt_irreflexive(key);
        }
    } else if b == at {
        // The last entry before the place is not greater; neither are the ones before it.
        let near = entry_key(before[at - 1]);
        let far = entry_key(before[a]);
        if text_lt(key, far) {
            if a < at - 1 {
                assert(!text_lt(near, far));
                lemma_text_lt_total(near, far);
                if near != far {
                    lemma_text_lt_transitive(key, far, near);
                }
            }
        }
    }
}

/// The variables of the host that every process gets, where the host has them.
pub fn host_variable_names() -> (r: Vec<String>)
    ensures
        texts(r@) == host_names(),
{
    let names = vec![
        "ALLUSERSPROFILE".to_owned(),
        "APPDATA".to_owned(),
        "CommonProgramFiles".to_owned(),
        "CommonProgramFiles(x86)".to_owned(),
        "CommonProgramW6432".to_owned(),
        "HOMEDRIVE".to_owned(),
        "HOMEPATH".to_owned(),
        "LOCALAPPDATA".to_owned(),
        "OS".to_owned(),
        "ProgramData".to_owned(),
        "ProgramFiles".to_owned(),
        "ProgramFiles(x86)".to_owned(),
        "ProgramW6432".to_owned(),
        "PUBLIC".to_owned(),
        "SYSTEMDRIVE".to_owned(),
        "USERPROFILE".to_owned(),
    ];
    assert(texts(names@) =~= host_names());
    names
}

/// `rappct::launch::merge_parent_env`: the given entries as they are, and behind them the values
/// that this process has for a few essential variables which the given entries do not name. Which
/// of these variables it has, and their values, the machine decides. A value is handed back in the
/// bytes of `OsString::into_encoded_bytes`, which are those of its UTF-8 form where it is text.
#[verifier::external_body]
fn merge_parent_environment(requested: Vec<(String, String)>) -> (r: Vec<Entry>)
    ensures
        is_merged(request_texts(requested@), entry_texts(r@)),
{
    let entries = requested.into_iter().map(|(name, value)| (name.into(), value.into())).collect();
    rappct::launch::merge_parent_env(entries)
        .into_iter()
        .map(|(name, value)| (name.to_string_lossy().into_owned(), value.into_encoded_bytes()))
        .collect()
}

/// The entries of a request.
fn entries_of(requested: &StringMap<String>) -> (r: Vec<(String, String)>)
    ensures
        request_texts(r@) == requested_entries(*requested),
{
    let count: usize = requested.len();
    let mut entries: Vec<(String, String)> = Vec::new();
    let mut i: usize = 0;
    while i < count
        invariant
            i <= count == requested.pairs().len(),
            request_texts(entries@) == requested_entries(*requested).take(i as int),
        decreases count - i,
    {
        let ghost before = request_texts(entries@);
        let name = requested.key_at(i).clone();
        let value = requested.value_at(i).clone();
        entries.push((name, value));
        proof {
            assert(request_texts(entries@) =~= before.push((name@, encode_utf8(value@))));
            assert(request_texts(entries@) =~= requested_entries(*requested).take(i as int + 1));
        }
        i = i + 1;
    }
    assert(request_texts(entries@) =~= requested_entries(*requested));
    entries
}

/// The environment block of a process that starts in `workdir`: the variables that were
/// requested, those of this process without which none runs, and those of `host`, the host's.
pub fn process_environment(
    requested: &StringMap<String>,
    host: &StringMap<Vec<u8>>,
    workdir: &str,
) -> (r: Vec<Entry>)
    ensures
        is_environment(requested_entries(*requested), host@, workdir@, entry_texts(r@)),
{
    environment_block(merge_parent_environment(entries_of(requested)), host, workdir)
}

/// The environment block of a process that starts in `workdir`: `merged` is what the launcher
/// merged from the request and the parent, `host` holds variables of the host.
pub fn environment_block(merged: Vec<Entry>, host: &StringMap<Vec<u8>>, workdir: &str) -> (r: Vec<
    Entry,
>)
    ensures
        is_sorted_form(block(entry_texts(merged@), host@, workdir@), entry_texts(r@)),
{
    let ghost start = merged@;
    let names = host_variable_names();
    let mut entries = merged;
    let mut i: usize = 0;
    proof {
        assert(texts(names@).take(0) =~= Seq::<Seq<char>>::empty());
        assert(entry_texts(entries@) =~= entry_texts(start) + host_entries(
            host@,
            texts(names@).take(0),
        ));
    }
    while i < names.len()
        invariant
            i <= names@.len(),
            entry_texts(entries@) == entry_texts(start) + host_entries(
                host@,
                texts(names@).take(i as int),
            ),
        decreases names@.len() - i,
    {
        proof {
            assert(texts(names@).take(i + 1).drop_last() =~= texts(names@).take(i as int));
        }
        let ghost before = entries@;
        match host.get(&names[i]) {
            Some(value) => {
                entries.push((names[i].clone(), value.clone()));
                assert(entry_texts(entries@) =~= entry_texts(before).push(
                    (names@[i as int]@, value@),
                ));
            },
            None => {},
        }
        proof {
            assert(entry_texts(entries@) =~= entry_texts(start) + host_entries(
                host@,
                texts(names@).take(i + 1),
            ));
        }
        i = i + 1;
    }
    proof {
        assert(texts(names@).take(i as int) =~= host_names());
    }
    let chars = chars_of(workdir);
    let ghost before = entries@;
    if chars.len() >= 2 && chars[0] <= '\u{7f}' && chars[1] == ':' {
        let name = string_of(&vec!['=', upper_char(chars[0]), ':']);
        entries.push((name, bytes_of(workdir)));
        assert(entry_texts(entries@) =~= entry_texts(before) + drive_entry(workdir@)) by {
            assert(name@ =~= seq!['=', ascii_upper(workdir@[0]), ':']);
        }
    }
    assert(entry_texts(entries@) =~= block(entry_texts(start), host@, workdir@));
    sort_environment(entries)
}

proof fn lemma_same_entries(entries: Seq<EntryText>, sorted: Seq<EntryText>, entry: EntryText)
    requires
        is_sorted_form(entries, sorted),
    ensures
        sorted.contains(entry) <==> entries.contains(entry),
{
    let key = entry_key(entry);
    let pred = |e: EntryText| entry_key(e) == key;
    entries.filter_lemma(pred);
    sorted.filter_lemma(pred);
    assert(named(sorted, key) == named(entries, key));
    if sorted.contains(entry) {
        let i = choose|i: int| 0 <= i < sorted.len() && sorted[i] == entry;
        assert(sorted.filter(pred).contains(sorted[i]));
        let k = choose|k: int| 0 <= k < named(sorted, key).len() && named(sorted, key)[k] == entry;
        lemma_filter_from(entries, pred);
        assert(entries.contains(entries.filter(pred)[k]));
    }
    if entries.contains(entry) {
        let i = choose|i: int| 0 <= i < entries.len() && entries[i] == entry;
        assert(entries.filter(pred).contains(entries[i]));
        let k = choose|k: int| 0 <= k < named(entries, key).len() && named(entries, key)[k] == entry;
        lemma_filter_from(sorted, pred);
        assert(sorted.contains(sorted.filter(pred)[k]));
    }
}

proof fn lemma_host_entries(host: Map<Seq<char>, Vec<u8>>, list: Seq<Seq<char>>, entry: EntryText)
    requires
        host_entries(host, list).contains(entry),
    ensures
        list.contains(entry.0),
        host.contains_key(entry.0),
        entry.1 == host[entry.0]@,
    decreases list.len(),
{
    let all = host_entries(host, list);
    let i = choose|i: int| 0 <= i < all.len() && all[i] == entry;
    let before = host_entries(host, list.drop_last());
    if i < before.len() {
        assert(before[i] == entry);
        lemma_host_entries(host, list.drop_last(), entry);
        let k = choose|k: int|
            0 <= k < list.drop_last().len() && list.drop_last()[k] == entry.0;
        assert(list[k] == entry.0);
    } else {
        assert(list[list.len() - 1] == entry.0);
    }
}

/// The environment of a process is minimal: it has every variable that was requested, and no
/// others but the essential ones, the host's that every process gets, and the working directory
/// of its drive.
pub proof fn law_environment_is_minimal(
    requested: Seq<EntryText>,
    host: Map<Seq<char>, Vec<u8>>,
    workdir: Seq<char>,
    environment: Seq<EntryText>,
    entry: EntryText,
)
    requires
        is_environment(requested, host, workdir, environment),
    ensures
        requested.contains(entry) ==> environment.contains(entry),
        environment.contains(entry) ==> {
            ||| requested.contains(entry)
            ||| essential_names().contains(entry.0) && !names(requested, entry.0)
            ||| host_names().contains(entry.0) && host.contains_key(entry.0) && entry.1
                == host[entry.0]@
            ||| drive_entry(workdir) == seq![entry]
        },
{
    let merged = choose|merged: Seq<EntryText>| #[trigger]
        is_merged(requested, merged) && is_sorted_form(block(merged, host, workdir), environment);
    let whole = block(merged, host, workdir);
    lemma_same_entries(whole, environment, entry);
    if requested.contains(entry) {
        let i = choose|i: int| 0 <= i < requested.len() && requested[i] == entry;
        assert(merged[i] == entry);
        assert(whole[i] == entry);
    }
    if environment.contains(entry) {
        let i = choose|i: int| 0 <= i < whole.len() && whole[i] == entry;
        let theirs = host_entries(host, host_names());
        if i < requested.len() {
            assert(requested[i] == entry);
        } else if i < merged.len() {
            assert(merged[i] == entry);
        } else if i < merged.len() + theirs.len() {
            assert(theirs[i - merged.len()] == entry);
            lemma_host_entries(host, host_names(), entry);
        } else {
            assert(drive_entry(workdir)[0] == entry);
            assert(drive_entry(workdir) =~= seq![entry]);
        }
    }
}

/// Every process gets what the host has of the variables that every process gets, as the host has
/// it, and the working directory of its drive; and its variables are in the order of their names,
/// whatever their case.
pub proof fn law_environment_is_complete(
    requested: Seq<EntryText>,
    host: Map<Seq<char>, Vec<u8>>,
    workdir: Seq<char>,
    environment: Seq<EntryText>,
    name: Seq<char>,
)
    requires
        is_environment(requested, host, workdir, environment),
    ensures
        host_names().contains(name) && host.contains_key(name) ==> environment.contains(
            (name, host[name]@),
        ),
        workdir.len() >= 2 && 'a' <= workdir[0] <= 'z' && workdir[1] == ':'
            ==> environment.contains(
            (seq!['=', (workdir[0] as u8 - 32) as u8 as char, ':'], encode_utf8(workdir)),
        ),
        workdir.len() >= 2 && 'A' <= workdir[0] <= 'Z' && workdir[1] == ':'
            ==> environment.contains((seq!['=', workdir[0], ':'], encode_utf8(workdir))),
        forall|i: int, j: int|
            0 <= i < j < environment.len() ==> !text_lt(
                (#[trigger] environment[j]).0.map_values(|c: char| ascii_lower(c)),
                (#[trigger] environment[i]).0.map_values(|c: char| ascii_lower(c)),
            ),
{
    let merged = choose|merged: Seq<EntryText>| #[trigger]
        is_merged(requested, merged) && is_sorted_form(block(merged, host, workdir), environment);
    let whole = block(merged, host, workdir);
    let theirs = host_entries(host, host_names());
    let drive = drive_entry(workdir);
    if host_names().contains(name) && host.contains_key(name) {
        let entry = (name, host[name]@);
        lemma_host_entry_is_there(host, host_names(), name);
        let i = choose|i: int| 0 <= i < theirs.len() && theirs[i] == entry;
        assert(whole[merged.len() + i] == entry);
        lemma_same_entries(whole, environment, entry);
    }
    if drive.len() > 0 {
        assert(whole[(merged.len() + theirs.len()) as int] == drive[0]);
        lemma_same_entries(whole, environment, drive[0]);
    }
    assert forall|i: int, j: int| 0 <= i < j < environment.len() implies !text_lt(
        (#[trigger] environment[j]).0.map_values(|c: char| ascii_lower(c)),
        (#[trigger] environment[i]).0.map_values(|c: char| ascii_lower(c)),
    ) by {
        assert(!text_lt(entry_key(environment[j]), entry_key(environment[i])));
    }
}

proof fn lemma_host_entry_is_there(
    host: Map<Seq<char>, Vec<u8>>,
    list: Seq<Seq<char>>,
    name: Seq<char>,
)
    requires
        list.contains(name),
        host.contains_key(name),
    ensures
        host_entries(host, list).contains((name, host[name]@)),
    decreases list.len(),
{
    let all = host_entries(host, list);
    let before = host_entries(host, list.drop_last());
    if list.last() == name {
        assert(all[all.len() - 1] == (name, host[name]@));
    } else {
        let k = choose|k: int| 0 <= k < list.len() && list[k] == name;
        assert(list.drop_last()[k] == name);
        lemma_host_entry_is_there(host, list.drop_last(), name);
        let i = choose|i: int| 0 <= i < before.len() && before[i] == (name, host[name]@);
        assert(all[i] == before[i]);
    }
}

/// Which variables of the host every process gets: those that say where the system, its programs
/// and the profile are.
pub proof fn law_host_variables(name: Seq<char>)
    ensures
        host_names().contains(name) <==> {
            ||| name == "ALLUSERSPROFILE"@
            ||| name == "APPDATA"@
            ||| name == "CommonProgramFiles"@
            ||| name == "CommonProgramFiles(x86)"@
            ||| name == "CommonProgramW6432"@
            ||| name == "HOMEDRIVE"@
            ||| name == "HOMEPATH"@
            ||| name == "LOCALAPPDATA"@
            ||| name == "OS"@
            ||| name == "ProgramData"@
            ||| name == "ProgramFiles"@
            ||| name == "ProgramFiles(x86)"@
            ||| name == "ProgramW6432"@
            ||| name == "PUBLIC"@
            ||| name == "SYSTEMDRIVE"@
            ||| name == "USERPROFILE"@
        },
{
    let list = host_names();
    assert(list.len() == 16);
    assert(forall|i: int| 0 <= i < 16 ==> list.contains(#[trigger] list[i]));
    assert(list[0] == "ALLUSERSPROFILE"@ && list[1] == "APPDATA"@ && list[2]
        == "CommonProgramFiles"@ && list[3] == "CommonProgramFiles(x86)"@ && list[4]
        == "CommonProgramW6432"@ && list[5] == "HOMEDRIVE"@ && list[6] == "HOMEPATH"@ && list[7]
        == "LOCALAPPDATA"@ && list[8] == "OS"@ && list[9] == "ProgramData"@ && list[10]
        == "ProgramFiles"@ && list[11] == "ProgramFiles(x86)"@ && list[12] == "ProgramW6432"@
        && list[13] == "PUBLIC"@ && list[14] == "SYSTEMDRIVE"@ && list[15] == "USERPROFILE"@);
}

/// A working directory on a drive has its variable, whose name is the letter of the drive in upper
/// case between an equals sign and a colon, and whose value is the directory; any other directory
/// has none.
pub proof fn law_drive_of_the_working_directory(workdir: Seq<char>)
    ensures
        drive_entry(workdir).len() == if workdir.len() >= 2 && workdir[1] == ':' && (
        workdir[0] as u32) < 128 {
            1nat
        } else {
            0
        },
        drive_entry(workdir).len() == 1 ==> {
            let name = drive_entry(workdir)[0].0;
            &&& name.len() == 3 && name[0] == '=' && name[2] == ':'
            &&& 'a' <= workdir[0] <= 'z' ==> name[1] as u32 == workdir[0] as u32 - 32
            &&& !('a' <= workdir[0] <= 'z') ==> name[1] == workdir[0]
            &&& drive_entry(workdir)[0].1 == encode_utf8(workdir)
        },
{
}

/// What was requested comes first and as it was; of what the daemon adds to it, nothing has a name
/// that was requested, and each is one of the variables that a process cannot do without.
pub proof fn law_request_comes_first(
    requested: Seq<EntryText>,
    merged: Seq<EntryText>,
    i: int,
    j: int,
)
    requires
        is_merged(requested, merged),
    ensures
        merged.len() >= requested.len(),
        0 <= i < requested.len() ==> merged[i] == requested[i],
        requested.len() <= j < merged.len() && 0 <= i < requested.len() ==> merged[j].0
            != requested[i].0,
        requested.len() <= j < merged.len() ==> {
            ||| merged[j].0 == "SystemRoot"@
            ||| merged[j].0 == "windir"@
            ||| merged[j].0 == "ComSpec"@
            ||| merged[j].0 == "PATHEXT"@
            ||| merged[j].0 == "TEMP"@
            ||| merged[j].0 == "TMP"@
            ||| merged[j].0 == "PATH"@
        },
{
    if 0 <= i < requested.len() {
        assert(requested[i] == merged.subrange(0, requested.len() as int)[i]);
    }
    if requested.len() <= j < merged.len() {
        let list = essential_names();
        assert(list.contains(merged[j].0));
        let k = choose|k: int| 0 <= k < list.len() && list[k] == merged[j].0;
        assert(list.len() == 7);
        assert(k == 0 || k == 1 || k == 2 || k == 3 || k == 4 || k == 5 || k == 6);
    }
}

} // verus!
