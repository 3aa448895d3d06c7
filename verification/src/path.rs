//! Host paths as text: how the path rules of each platform divide, compare and join them.
use vstd::prelude::*;
use vstd::string::*;

use crate::error::{failure, Fault, SandboxError};
use crate::text::{
    ascii_upper, chars_of, concat, concat3, has_prefix, join_texts, joined, part_of, replace_char,
    replaced, same_text, texts, trim_end, trimmed_end, upper_char,
};

verus! {

/// The path rules that apply on a host.
#[derive(Debug, Clone, Copy, PartialEq, Eq, Structural)]
pub enum Platform {
    Unix,
    Windows,
}

/// Whether the character separates the segments of a path.
pub open spec fn is_separator(platform: Platform, c: char) -> bool {
    c == '/' || (platform == Platform::Windows && c == '\\')
}

/// The text between the separators of a path: one segment more than there are separators.
pub open spec fn segments(platform: Platform, s: Seq<char>) -> Seq<Seq<char>>
    decreases s.len(),
{
    if s.len() == 0 {
        seq![Seq::empty()]
    } else {
        let before = segments(platform, s.drop_last());
        if is_separator(platform, s.last()) {
            before.push(Seq::empty())
        } else {
            before.update(before.len() - 1, before.last().push(s.last()))
        }
    }
}

/// A segment that names something: neither empty nor the directory itself.
pub open spec fn is_kept(segment: Seq<char>) -> bool {
    segment.len() > 0 && segment != seq!['.']
}

/// The segments of a list that name something, in order.
pub open spec fn kept(list: Seq<Seq<char>>) -> Seq<Seq<char>>
    decreases list.len(),
{
    if list.len() == 0 {
        Seq::empty()
    } else if is_kept(list.last()) {
        kept(list.drop_last()).push(list.last())
    } else {
        kept(list.drop_last())
    }
}

/// The segments of a path that name something.
pub open spec fn kept_segments(platform: Platform, s: Seq<char>) -> Seq<Seq<char>> {
    kept(segments(platform, s))
}

/// Whether a Windows path is verbatim.
pub open spec fn is_verbatim(s: Seq<char>) -> bool {
    s.len() >= 4 && s.take(4) == seq!['\\', '\\', '?', '\\']
}

/// The place of the drive letter of a Windows path.
pub open spec fn drive_place(s: Seq<char>) -> Option<int> {
    if !is_verbatim(s) {
        if has_drive(s) {
            Some(0)
        } else {
            None
        }
    } else if has_drive(s.skip(4)) && (s.len() == 6 || s[6] == '\\') {
        Some(4)
    } else {
        None
    }
}

/// A path by which it is compared: on Windows, the case of the drive letter does not count.
pub open spec fn drive_form(platform: Platform, s: Seq<char>) -> Seq<char> {
    match drive_place(s) {
        Some(place) if platform == Platform::Windows => s.update(place, ascii_upper(s[place])),
        _ => s,
    }
}

/// The components of a path: a marker for a verbatim path, a leading separator or a leading `.`,
/// and the segments that name something.
pub open spec fn components(platform: Platform, s: Seq<char>) -> Seq<Seq<char>> {
    let form = drive_form(platform, s);
    let lead: Seq<Seq<char>> = if platform == Platform::Windows && is_verbatim(s) {
        seq![seq!['\\']]
    } else if form.len() > 0 && is_separator(platform, form[0]) {
        seq![seq!['/']]
    } else if segments(platform, form)[0] == seq!['.'] {
        seq![seq!['.']]
    } else {
        Seq::empty()
    };
    lead + kept_segments(platform, form)
}

/// Whether `path` lies at or below `base`, component by component.
pub open spec fn starts_with(platform: Platform, path: Seq<char>, base: Seq<char>) -> bool {
    components(platform, base).is_prefix_of(components(platform, path))
}

/// Whether the text begins with a drive such as `C:`.
pub open spec fn has_drive(s: Seq<char>) -> bool {
    &&& s.len() >= 2
    &&& (('a' <= s[0] && s[0] <= 'z') || ('A' <= s[0] && s[0] <= 'Z'))
    &&& s[1] == ':'
}

/// Whether the text begins with two separators and then a verbatim marker, a device marker, or a
/// server and a share.
pub open spec fn has_share(s: Seq<char>) -> bool {
    &&& s.len() >= 2
    &&& is_separator(Platform::Windows, s[0])
    &&& is_separator(Platform::Windows, s[1])
    &&& {
        let parts = segments(Platform::Windows, s.skip(2));
        ||| is_verbatim(s)
        ||| s.len() >= 4 && s[2] == '.' && is_separator(Platform::Windows, s[3])
        ||| parts.len() >= 2 && parts[0].len() > 0 && parts[1].len() > 0
    }
}

/// Whether the path means the same place in every working directory.
pub open spec fn is_absolute(platform: Platform, s: Seq<char>) -> bool {
    match platform {
        Platform::Unix => s.len() > 0 && s[0] == '/',
        Platform::Windows => {
            ||| has_drive(s) && s.len() >= 3 && is_separator(Platform::Windows, s[2])
            ||| has_share(s)
        },
    }
}

/// The normal form of a relative path: the segments that name something, with `/` between them.
pub open spec fn relative_form(platform: Platform, s: Seq<char>) -> Seq<char> {
    joined(kept_segments(platform, s), seq!['/'])
}

/// Whether a path that is not absolute can still lead out of the directory it is taken from.
///
/// A backslash counts as a separator here on every platform, because the logical form of a path
/// writes it as one.
pub open spec fn escapes(platform: Platform, s: Seq<char>) -> bool {
    let form = relative_form(platform, s);
    ||| segments(platform, s).contains(seq!['.', '.'])
    ||| platform == Platform::Windows && (has_drive(s) || (s.len() > 0 && is_separator(
        platform,
        s[0],
    )))
    ||| segments(Platform::Windows, form).contains(seq!['.', '.'])
    ||| form.len() > 0 && form[0] == '\\'
}

/// Why a working directory is refused.
pub open spec fn cwd_fault(platform: Platform, s: Seq<char>) -> Option<Fault> {
    if is_absolute(platform, s) {
        Some(Fault::InvalidPolicy("execution cwd must be relative"@))
    } else if escapes(platform, s) {
        Some(Fault::InvalidPolicy("execution cwd cannot escape its mount"@))
    } else {
        None
    }
}

/// The Unicode lower-case form of a text, as `str::to_lowercase` computes it.
pub uninterp spec fn lowercase(s: Seq<char>) -> Seq<char>;

/// Whether one of two paths lies at or below the other.
pub open spec fn overlap(platform: Platform, left: Seq<char>, right: Seq<char>) -> bool {
    match platform {
        Platform::Unix => starts_with(platform, left, right) || starts_with(platform, right, left),
        Platform::Windows => {
            ||| lowercase(left) == lowercase(right)
            ||| lowercase(right).push('\\').is_prefix_of(lowercase(left))
            ||| lowercase(left).push('\\').is_prefix_of(lowercase(right))
        },
    }
}

/// The form in which Windows paths are compared: backslashes only, none at the end, lower case.
pub open spec fn comparable(s: Seq<char>) -> Seq<char> {
    lowercase(trimmed_end(replaced(s, '/', '\\'), |c: char| c == '\\'))
}

/// Whether a Windows path is the root or lies below it.
pub open spec fn within(root: Seq<char>, candidate: Seq<char>) -> bool {
    ||| comparable(candidate) == comparable(root)
    ||| comparable(root).push('\\').is_prefix_of(comparable(candidate))
}

/// A path taken relative to a base directory on Unix: an absolute one stands for itself.
pub open spec fn unix_join(base: Seq<char>, path: Seq<char>) -> Seq<char> {
    if path.len() > 0 && path[0] == '/' {
        path
    } else if base.len() == 0 || base.last() == '/' {
        base + path
    } else {
        base + seq!['/'] + path
    }
}

/// A plain name taken relative to a base directory on Windows. A drive alone means the current
/// directory of the drive, so nothing comes between it and the name.
pub open spec fn windows_join(base: Seq<char>, name: Seq<char>) -> Seq<char> {
    if base.len() == 0 || is_separator(Platform::Windows, base.last()) || (base.len() == 2
        && has_drive(base)) {
        base + name
    } else {
        base + seq!['\\'] + name
    }
}

/// A path has at least one segment.
pub proof fn lemma_segments_nonempty(platform: Platform, s: Seq<char>)
    ensures
        segments(platform, s).len() > 0,
    decreases s.len(),
{
    if s.len() > 0 {
        lemma_segments_nonempty(platform, s.drop_last());
    }
}

/// A path whose backslashes are written as `/` has the segments that both separators give.
pub proof fn lemma_slashes_only(s: Seq<char>)
    ensures
        segments(Platform::Unix, replaced(s, '\\', '/')) == segments(Platform::Windows, s),
    decreases s.len(),
{
    let r = replaced(s, '\\', '/');
    if s.len() > 0 {
        lemma_slashes_only(s.drop_last());
        assert(r.drop_last() =~= replaced(s.drop_last(), '\\', '/'));
    }
}

/// A relative path that is accepted stays inside: its logical form has no `..` segment and does
/// not begin with a separator.
pub proof fn law_accepted_path_stays_inside(platform: Platform, s: Seq<char>)
    requires
        cwd_fault(platform, s) is None,
    ensures
        ({
            let logical = replaced(relative_form(platform, s), '\\', '/');
            &&& !segments(Platform::Unix, logical).contains(seq!['.', '.'])
            &&& !is_absolute(Platform::Unix, logical)
        }),
{
    let form = relative_form(platform, s);
    lemma_slashes_only(form);
    lemma_form_start(platform, s);
}

/// No segment holds a separator.
pub proof fn lemma_segments_free(platform: Platform, s: Seq<char>)
    ensures
        forall|i: int, j: int|
            0 <= i < segments(platform, s).len() && 0 <= j < segments(platform, s)[i].len()
                ==> !is_separator(platform, #[trigger] segments(platform, s)[i][j]),
    decreases s.len(),
{
    if s.len() > 0 {
        lemma_segments_free(platform, s.drop_last());
        lemma_segments_nonempty(platform, s.drop_last());
    }
}

/// What is kept of a list stood in it and names something.
pub proof fn lemma_kept(list: Seq<Seq<char>>)
    ensures
        forall|i: int|
            0 <= i < kept(list).len() ==> is_kept(#[trigger] kept(list)[i]) && list.contains(
                kept(list)[i],
            ),
    decreases list.len(),
{
    if list.len() > 0 {
        lemma_kept(list.drop_last());
        let rest = list.drop_last();
        assert forall|i: int| 0 <= i < kept(list).len() implies is_kept(#[trigger] kept(list)[i])
            && list.contains(kept(list)[i]) by {
            if i < kept(rest).len() {
                assert(rest.contains(kept(rest)[i]));
                let k = choose|k: int| 0 <= k < rest.len() && rest[k] == kept(rest)[i];
                assert(list[k] == kept(rest)[i]);
            } else {
                assert(list[list.len() - 1] == list.last());
            }
        }
    }
}

/// Joined parts begin as the first part does.
pub proof fn lemma_joined_start(parts: Seq<Seq<char>>, sep: Seq<char>)
    requires
        parts.len() > 0,
        parts[0].len() > 0,
    ensures
        joined(parts, sep).len() > 0,
        joined(parts, sep)[0] == parts[0][0],
    decreases parts.len(),
{
    if parts.len() > 1 {
        lemma_joined_start(parts.drop_last(), sep);
    }
}

/// The normal form of a path does not begin with a separator of its platform.
pub proof fn lemma_form_start(platform: Platform, s: Seq<char>)
    ensures
        relative_form(platform, s).len() > 0 ==> !is_separator(
            platform,
            relative_form(platform, s)[0],
        ),
{
    let parts = kept_segments(platform, s);
    lemma_kept(segments(platform, s));
    lemma_segments_free(platform, s);
    if parts.len() > 0 {
        assert(is_kept(parts[0]));
        let k = choose|k: int|
            0 <= k < segments(platform, s).len() && segments(platform, s)[k] == parts[0];
        assert(!is_separator(platform, segments(platform, s)[k][0]));
        lemma_joined_start(parts, seq!['/']);
    }
}

/// `str::to_lowercase`: the Unicode lower-case form of the text, a function of the text alone.
#[verifier::external_body]
fn to_lowercase(s: &str) -> (r: String)
    ensures
        r@ == lowercase(s@),
{
    s.to_lowercase()
}

pub fn separator(platform: Platform, c: char) -> (r: bool)
    ensures
        r == is_separator(platform, c),
{
    c == '/' || (platform == Platform::Windows && c == '\\')
}

/// The segments of a path.
pub fn split(platform: Platform, chars: &[char]) -> (r: Vec<String>)
    ensures
        texts(r@) == segments(platform, chars@),
        r@.len() > 0,
{
    let mut done: Vec<String> = Vec::new();
    let mut current = String::new();
    let mut i: usize = 0;
    assert(texts(done@).push(current@) =~= segments(platform, chars@.take(0)));
    while i < chars.len()
        invariant
            i <= chars@.len(),
            texts(done@).push(current@) == segments(platform, chars@.take(i as int)),
        decreases chars@.len() - i,
    {
        proof {
            assert(chars@.take(i + 1).drop_last() =~= chars@.take(i as int));
            assert(chars@.take(i + 1).last() == chars@[i as int]);
        }
        let ghost before = texts(done@).push(current@);
        if separator(platform, chars[i]) {
            done.push(current);
            current = String::new();
            assert(texts(done@) =~= before);
            assert(texts(done@).push(current@) =~= before.push(Seq::empty()));
        } else {
            let ghost head = texts(done@);
            let ghost earlier = current@;
            current.push(chars[i]);
            assert(before.last() == earlier);
            assert(texts(done@).push(current@) =~= before.update(
                before.len() - 1,
                before.last().push(chars@[i as int]),
            ));
        }
        i = i + 1;
    }
    assert(chars@.take(i as int) =~= chars@);
    let ghost head = texts(done@);
    done.push(current);
    assert(texts(done@) =~= head.push(current@));
    done
}

fn keeps(segment: &str) -> (r: bool)
    ensures
        r == is_kept(segment@),
{
    proof {
        reveal_strlit(".");
        assert("."@ =~= seq!['.']);
    }
    !segment.is_empty() && !same_text(segment, ".")
}

/// The segments of a list that name something.
fn keep(list: &Vec<String>) -> (r: Vec<String>)
    ensures
        texts(r@) == kept(texts(list@)),
{
    let mut out: Vec<String> = Vec::new();
    let mut i: usize = 0;
    assert(texts(out@) =~= kept(texts(list@).take(0)));
    while i < list.len()
        invariant
            i <= list@.len(),
            texts(out@) == kept(texts(list@).take(i as int)),
        decreases list@.len() - i,
    {
        proof {
            assert(texts(list@).take(i + 1).drop_last() =~= texts(list@).take(i as int));
            assert(texts(list@).take(i + 1).last() == list@[i as int]@);
        }
        let ghost before = texts(out@);
        if keeps(&list[i]) {
            out.push(list[i].clone());
            assert(texts(out@) =~= before.push(list@[i as int]@));
        }
        i = i + 1;
    }
    assert(texts(list@).take(i as int) =~= texts(list@));
    out
}

fn has_parent_segment(list: &Vec<String>) -> (r: bool)
    ensures
        r == texts(list@).contains(seq!['.', '.']),
{
    proof {
        reveal_strlit("..");
        assert(".."@ =~= seq!['.', '.']);
    }
    let mut i: usize = 0;
    while i < list.len()
        invariant
            i <= list@.len(),
            ".."@ == seq!['.', '.'],
            forall|j: int| 0 <= j < i ==> texts(list@)[j] != seq!['.', '.'],
        decreases list@.len() - i,
    {
        if same_text(&list[i], "..") {
            assert(texts(list@)[i as int] == seq!['.', '.']);
            return true;
        }
        i = i + 1;
    }
    false
}

fn starts_with_drive(chars: &[char]) -> (r: bool)
    ensures
        r == has_drive(chars@),
{
    chars.len() >= 2 && (('a' <= chars[0] && chars[0] <= 'z') || ('A' <= chars[0] && chars[0]
        <= 'Z')) && chars[1] == ':'
}

fn starts_with_share(chars: &[char]) -> (r: bool)
    ensures
        r == has_share(chars@),
{
    if chars.len() < 2 || !separator(Platform::Windows, chars[0]) || !separator(
        Platform::Windows,
        chars[1],
    ) {
        return false;
    }
    if chars.len() >= 4 && chars[0] == '\\' && chars[1] == '\\' && chars[2] == '?' && chars[3]
        == '\\' {
        assert(chars@.take(4) =~= seq!['\\', '\\', '?', '\\']);
        return true;
    }
    proof {
        if chars@.len() >= 4 {
            let t = chars@.take(4);
            assert(t[0] == chars@[0] && t[1] == chars@[1] && t[2] == chars@[2] && t[3] == chars@[3]);
        }
    }
    if chars.len() >= 4 && chars[2] == '.' && separator(Platform::Windows, chars[3]) {
        return true;
    }
    let rest = part_of(chars, 2, chars.len());
    assert(rest@ =~= chars@.skip(2));
    let parts = split(Platform::Windows, &rest);
    proof {
        if parts@.len() >= 2 {
            assert(texts(parts@)[0] == parts@[0]@);
            assert(texts(parts@)[1] == parts@[1]@);
        }
    }
    parts.len() >= 2 && !parts[0].as_str().is_empty() && !parts[1].as_str().is_empty()
}

/// Whether the path means the same place in every working directory.
pub fn path_is_absolute(platform: Platform, path: &str) -> (r: bool)
    ensures
        r == is_absolute(platform, path@),
{
    let chars = chars_of(path);
    match platform {
        Platform::Unix => chars.len() > 0 && chars[0] == '/',
        Platform::Windows => {
            (starts_with_drive(&chars) && chars.len() >= 3 && separator(platform, chars[2]))
                || starts_with_share(&chars)
        },
    }
}

/// The normal form of a working directory inside a mount, or why it is refused.
pub fn validate_relative_path(platform: Platform, value: &str) -> (r: Result<String, SandboxError>)
    ensures
        failure(r) == cwd_fault(platform, value@),
        r matches Ok(form) ==> form@ == relative_form(platform, value@),
{
    if path_is_absolute(platform, value) {
        return Err(SandboxError::invalid_policy("execution cwd must be relative"));
    }
    let chars = chars_of(value);
    let parts = split(platform, &chars);
    let form = join_texts(&keep(&parts), "/");
    proof {
        reveal_strlit("/");
        assert("/"@ =~= seq!['/']);
    }
    let form_chars = chars_of(&form);
    let all = split(Platform::Windows, &form_chars);
    let parent = has_parent_segment(&parts);
    let rooted = platform == Platform::Windows && (starts_with_drive(&chars) || (chars.len() > 0
        && separator(platform, chars[0])));
    let hidden_parent = has_parent_segment(&all);
    let hidden_root = form_chars.len() > 0 && form_chars[0] == '\\';
    if parent || rooted || hidden_parent || hidden_root {
        return Err(SandboxError::invalid_policy("execution cwd cannot escape its mount"));
    }
    Ok(form)
}

fn starts_verbatim(chars: &[char]) -> (r: bool)
    ensures
        r == is_verbatim(chars@),
{
    let r = chars.len() >= 4 && chars[0] == '\\' && chars[1] == '\\' && chars[2] == '?' && chars[3]
        == '\\';
    proof {
        if chars@.len() >= 4 {
            let front = chars@.take(4);
            let marker = seq!['\\', '\\', '?', '\\'];
            if r {
                assert(front =~= marker);
            } else if front == marker {
                assert(front[0] == chars@[0] && front[1] == chars@[1]);
                assert(front[2] == chars@[2] && front[3] == chars@[3]);
            }
        }
    }
    r
}

/// The characters of a path as they are compared.
fn drive_chars(platform: Platform, path: &str) -> (r: Vec<char>)
    ensures
        r@ == drive_form(platform, path@),
{
    let mut chars = chars_of(path);
    if platform == Platform::Unix {
        return chars;
    }
    if !starts_verbatim(&chars) {
        if starts_with_drive(&chars) {
            let letter = upper_char(chars[0]);
            chars.set(0, letter);
        }
        return chars;
    }
    let rest = part_of(&chars, 4, chars.len());
    assert(rest@ =~= path@.skip(4));
    if starts_with_drive(&rest) && (chars.len() == 6 || chars[6] == '\\') {
        let letter = upper_char(chars[4]);
        chars.set(4, letter);
    }
    chars
}

/// The components of a path.
fn components_of(platform: Platform, path: &str) -> (r: Vec<String>)
    ensures
        texts(r@) == components(platform, path@),
{
    let verbatim = starts_verbatim(&chars_of(path));
    let chars = drive_chars(platform, path);
    let parts = split(platform, &chars);
    let mut out: Vec<String> = Vec::new();
    proof {
        reveal_strlit("/");
        reveal_strlit(".");
        reveal_strlit("\\");
        assert("/"@ =~= seq!['/']);
        assert("."@ =~= seq!['.']);
        assert("\\"@ =~= seq!['\\']);
        assert(texts(parts@)[0] == parts@[0]@);
    }
    if platform == Platform::Windows && verbatim {
        out.push("\\".to_owned());
        assert(texts(out@) =~= seq![seq!['\\']]);
    } else if chars.len() > 0 && separator(platform, chars[0]) {
        out.push("/".to_owned());
        assert(texts(out@) =~= seq![seq!['/']]);
    } else if same_text(&parts[0], ".") {
        out.push(".".to_owned());
        assert(texts(out@) =~= seq![seq!['.']]);
    } else {
        assert(texts(out@) =~= Seq::<Seq<char>>::empty());
    }
    let ghost lead = texts(out@);
    let mut rest = keep(&parts);
    let ghost tail = texts(rest@);
    let ghost head = out@;
    let ghost more = rest@;
    out.append(&mut rest);
    assert(texts(out@) =~= lead + tail);
    out
}

/// Whether `path` lies at or below `base`.
pub fn path_starts_with(platform: Platform, path: &str, base: &str) -> (r: bool)
    ensures
        r == starts_with(platform, path@, base@),
{
    let all = components_of(platform, path);
    let front = components_of(platform, base);
    if front.len() > all.len() {
        return false;
    }
    let mut i: usize = 0;
    while i < front.len()
        invariant
            i <= front@.len() <= all@.len(),
            texts(all@) == components(platform, path@),
            texts(front@) == components(platform, base@),
            forall|j: int| 0 <= j < i ==> texts(front@)[j] == texts(all@)[j],
        decreases front@.len() - i,
    {
        assert(texts(front@)[i as int] == front@[i as int]@);
        assert(texts(all@)[i as int] == all@[i as int]@);
        if !same_text(&front[i], &all[i]) {
            assert(texts(all@).subrange(0, front@.len() as int)[i as int] != texts(
                front@,
            )[i as int]);
            return false;
        }
        i = i + 1;
    }
    assert(texts(all@).subrange(0, front@.len() as int) =~= texts(front@));
    true
}

/// Whether `child` begins with `parent` and a backslash.
fn below(parent: &str, child: &str) -> (r: bool)
    ensures
        r == parent@.push('\\').is_prefix_of(child@),
{
    let mut front = parent.to_owned();
    front.push('\\');
    has_prefix(child, &front)
}

/// Whether one of two paths lies at or below the other.
pub fn paths_overlap(platform: Platform, left: &str, right: &str) -> (r: bool)
    ensures
        r == overlap(platform, left@, right@),
{
    match platform {
        Platform::Unix => path_starts_with(platform, left, right) || path_starts_with(
            platform,
            right,
            left,
        ),
        Platform::Windows => {
            let l = to_lowercase(left);
            let r = to_lowercase(right);
            same_text(&l, &r) || below(&r, &l) || below(&l, &r)
        },
    }
}

fn comparable_form(path: &str) -> (r: String)
    ensures
        r@ == comparable(path@),
{
    to_lowercase(&trim_end(&replace_char(path, '/', '\\'), '\\'))
}

/// Whether a Windows path is the root or lies below it.
pub fn windows_path_within(root: &str, candidate: &str) -> (r: bool)
    ensures
        r == within(root@, candidate@),
{
    let r = comparable_form(root);
    let c = comparable_form(candidate);
    same_text(&c, &r) || below(&r, &c)
}

/// A path taken relative to a base directory on Unix.
pub fn join_unix(base: &str, path: &str) -> (r: String)
    ensures
        r@ == unix_join(base@, path@),
{
    let b = chars_of(base);
    let p = chars_of(path);
    proof {
        reveal_strlit("/");
        assert("/"@ =~= seq!['/']);
    }
    if p.len() > 0 && p[0] == '/' {
        path.to_owned()
    } else if b.len() == 0 || b[b.len() - 1] == '/' {
        concat(base, path)
    } else {
        concat3(base, "/", path)
    }
}

/// A plain name taken relative to a base directory on Windows.
pub fn join_windows(base: &str, name: &str) -> (r: String)
    ensures
        r@ == windows_join(base@, name@),
{
    let b = chars_of(base);
    proof {
        reveal_strlit("\\");
        assert("\\"@ =~= seq!['\\']);
    }
    if b.len() == 0 || separator(Platform::Windows, b[b.len() - 1]) || (b.len() == 2
        && starts_with_drive(&b)) {
        concat(base, name)
    } else {
        concat3(base, "\\", name)
    }
}

/// The first of several places that is there.
pub open spec fn first_there(places: Seq<(String, bool)>) -> Option<Seq<char>>
    decreases places.len(),
{
    if places.len() == 0 {
        None
    } else if places[0].1 {
        Some(places[0].0@)
    } else {
        first_there(places.drop_first())
    }
}

/// The first of several places that is there, each given with whether it is.
pub fn find_there(places: &Vec<(String, bool)>) -> (r: Option<String>)
    ensures
        match r {
            Some(place) => first_there(places@) == Some(place@),
            None => first_there(places@) is None,
        },
{
    let mut i: usize = 0;
    proof {
        assert(places@.skip(0) =~= places@);
    }
    while i < places.len()
        invariant
            i <= places@.len(),
            first_there(places@) == first_there(places@.skip(i as int)),
        decreases places@.len() - i,
    {
        if places[i].1 {
            return Some(places[i].0.clone());
        }
        proof {
            assert(places@.skip(i as int).drop_first() =~= places@.skip(i + 1));
        }
        i = i + 1;
    }
    None
}

/// A separator divides a path into the segments before it and those behind it.
pub proof fn lemma_segments_append(platform: Platform, a: Seq<char>, sep: char, b: Seq<char>)
    requires
        is_separator(platform, sep),
    ensures
        segments(platform, a.push(sep) + b) == segments(platform, a) + segments(platform, b),
    decreases b.len(),
{
    let whole = a.push(sep) + b;
    lemma_segments_nonempty(platform, a);
    lemma_segments_nonempty(platform, b);
    if b.len() == 0 {
        assert(whole =~= a.push(sep));
        assert(whole.drop_last() =~= a);
        assert(segments(platform, whole) =~= segments(platform, a) + segments(platform, b));
    } else {
        lemma_segments_append(platform, a, sep, b.drop_last());
        lemma_segments_nonempty(platform, b.drop_last());
        assert(whole.drop_last() =~= a.push(sep) + b.drop_last());
        assert(whole.last() == b.last());
        assert(segments(platform, whole) =~= segments(platform, a) + segments(platform, b));
    }
}

/// What is kept of two lists one after the other is what is kept of each.
pub proof fn lemma_kept_append(a: Seq<Seq<char>>, b: Seq<Seq<char>>)
    ensures
        kept(a + b) == kept(a) + kept(b),
    decreases b.len(),
{
    if b.len() == 0 {
        assert(a + b =~= a);
        assert(kept(a) + kept(b) =~= kept(a));
    } else {
        lemma_kept_append(a, b.drop_last());
        assert((a + b).drop_last() =~= a + b.drop_last());
        assert((a + b).last() == b.last());
        assert(kept(a + b) =~= kept(a) + kept(b));
    }
}

/// An empty segment is not kept.
proof fn lemma_nothing_kept()
    ensures
        kept(seq![Seq::<char>::empty()]) == Seq::<Seq<char>>::empty(),
{
    reveal_with_fuel(kept, 2);
    let one = seq![Seq::<char>::empty()];
    assert(one.drop_last() =~= Seq::<Seq<char>>::empty());
    assert(one.last() == Seq::<char>::empty());
}

/// Nothing is dropped from a list whose every segment names something.
pub proof fn lemma_all_kept(list: Seq<Seq<char>>)
    requires
        forall|i: int| 0 <= i < list.len() ==> is_kept(#[trigger] list[i]),
    ensures
        kept(list) == list,
    decreases list.len(),
{
    if list.len() > 0 {
        let rest = list.drop_last();
        assert forall|i: int| 0 <= i < rest.len() implies is_kept(#[trigger] rest[i]) by {
            assert(rest[i] == list[i]);
        }
        lemma_all_kept(rest);
        assert(is_kept(list[list.len() - 1]));
        assert(kept(list) =~= list);
    } else {
        assert(kept(list) =~= list);
    }
}

/// The segments of a Unix path, with a slash between neighbours, are the path.
pub proof fn lemma_segments_join(s: Seq<char>)
    ensures
        joined(segments(Platform::Unix, s), seq!['/']) == s,
    decreases s.len(),
{
    let list = segments(Platform::Unix, s);
    if s.len() == 0 {
        assert(joined(list, seq!['/']) =~= s);
    } else {
        let front = s.drop_last();
        let before = segments(Platform::Unix, front);
        lemma_segments_join(front);
        lemma_segments_nonempty(Platform::Unix, front);
        if s.last() == '/' {
            assert(list.drop_last() =~= before);
            assert(list.last() == Seq::<char>::empty());
            assert(joined(list, seq!['/']) =~= front + seq!['/']);
        } else {
            assert(list.drop_last() =~= before.drop_last());
            assert(list.last() == before.last().push(s.last()));
            assert(joined(list, seq!['/']) =~= joined(before, seq!['/']).push(s.last()));
        }
        assert(joined(list, seq!['/']) =~= s);
    }
}

/// Two lists of parts are joined one after the other with the separator between them.
pub proof fn lemma_joined_append(a: Seq<Seq<char>>, b: Seq<Seq<char>>, sep: Seq<char>)
    requires
        a.len() > 0,
        b.len() > 0,
    ensures
        joined(a + b, sep) == joined(a, sep) + sep + joined(b, sep),
    decreases b.len(),
{
    let whole = a + b;
    assert(whole.last() == b.last());
    if b.len() == 1 {
        assert(whole.drop_last() =~= a);
        assert(joined(b, sep) == b[0]);
    } else {
        lemma_joined_append(a, b.drop_last(), sep);
        assert(whole.drop_last() =~= a + b.drop_last());
        assert(joined(whole, sep) =~= joined(a, sep) + sep + joined(b, sep));
    }
}

/// Whether a Unix path is written plainly: it begins with a slash, and every segment behind it
/// names something.
pub open spec fn is_plain(s: Seq<char>) -> bool {
    &&& s.len() > 0
    &&& s[0] == '/'
    &&& forall|i: int|
        0 < i < segments(Platform::Unix, s).len() ==> is_kept(
            #[trigger] segments(Platform::Unix, s)[i],
        )
}

/// The first segment of a path that begins with a separator is empty.
proof fn lemma_first_segment(platform: Platform, s: Seq<char>)
    requires
        s.len() > 0,
    ensures
        is_separator(platform, s[0]) ==> segments(platform, s).len() > 1 && segments(
            platform,
            s,
        )[0] == Seq::<char>::empty(),
    decreases s.len(),
{
    if s.len() == 1 {
        assert(s.drop_last() =~= Seq::<char>::empty());
        assert(segments(platform, Seq::<char>::empty()) =~= seq![Seq::<char>::empty()]);
    } else {
        lemma_first_segment(platform, s.drop_last());
        assert(s.drop_last()[0] == s[0]);
        lemma_segments_nonempty(platform, s.drop_last());
    }
}

proof fn lemma_plain_components(s: Seq<char>)
    requires
        is_plain(s),
    ensures
        components(Platform::Unix, s) == seq![seq!['/']] + segments(Platform::Unix, s).skip(1),
        segments(Platform::Unix, s).len() > 1,
        segments(Platform::Unix, s)[0] == Seq::<char>::empty(),
{
    let list = segments(Platform::Unix, s);
    lemma_first_segment(Platform::Unix, s);
    let rest = list.skip(1);
    assert forall|i: int| 0 <= i < rest.len() implies is_kept(#[trigger] rest[i]) by {
        assert(rest[i] == list[i + 1]);
    }
    lemma_all_kept(rest);
    assert(list =~= list.take(1) + rest);
    lemma_kept_append(list.take(1), rest);
    assert(list.take(1) =~= seq![Seq::<char>::empty()]);
    lemma_nothing_kept();
    assert(kept(list) =~= rest);
}

/// On Unix, a plainly written path lies at or below another only where it is that path, or goes on
/// behind it with a slash: a directory whose name merely begins in the same way is another one.
pub proof fn law_below_means_behind_a_slash(path: Seq<char>, base: Seq<char>)
    requires
        is_plain(path),
        is_plain(base),
    ensures
        starts_with(Platform::Unix, path, base) <==> path == base || base.push('/').is_prefix_of(
            path,
        ),
{
    let sep = seq!['/'];
    let p = segments(Platform::Unix, path);
    let b = segments(Platform::Unix, base);
    lemma_plain_components(path);
    lemma_plain_components(base);
    lemma_segments_join(path);
    lemma_segments_join(base);
    let cp = components(Platform::Unix, path);
    let cb = components(Platform::Unix, base);
    if starts_with(Platform::Unix, path, base) {
        assert(b.len() <= p.len());
        assert forall|i: int| 0 <= i < b.len() implies b[i] == #[trigger] p[i] by {
            if i > 0 {
                assert(cp.subrange(0, cb.len() as int)[i] == cb[i]);
                assert(cp[i] == p.skip(1)[i - 1]);
                assert(cb[i] == b.skip(1)[i - 1]);
            }
        }
        if b.len() == p.len() {
            assert(b =~= p);
        } else {
            let rest = p.skip(b.len() as int);
            assert(p =~= b + rest);
            lemma_joined_append(b, rest, sep);
            assert(path =~= base.push('/') + joined(rest, sep));
            assert(path.subrange(0, base.len() as int + 1) =~= base.push('/'));
        }
    }
    if base.push('/').is_prefix_of(path) {
        let rest = path.skip(base.len() as int + 1);
        assert(path =~= base.push('/') + rest);
        lemma_segments_append(Platform::Unix, base, '/', rest);
        assert(p =~= b + segments(Platform::Unix, rest));
        assert(cp.subrange(0, cb.len() as int) =~= cb);
    }
    if path == base {
        assert(cp.subrange(0, cb.len() as int) =~= cb);
    }
}

/// A path lies at or below itself, and what lies below something below it lies below it.
pub proof fn law_below_is_an_order(
    platform: Platform,
    a: Seq<char>,
    b: Seq<char>,
    c: Seq<char>,
)
    ensures
        starts_with(platform, a, a),
        starts_with(platform, a, b) && starts_with(platform, b, c) ==> starts_with(platform, a, c),
{
    let ca = components(platform, a);
    let cb = components(platform, b);
    let cc = components(platform, c);
    assert(ca.subrange(0, ca.len() as int) =~= ca);
    if starts_with(platform, a, b) && starts_with(platform, b, c) {
        assert(ca.subrange(0, cc.len() as int) =~= ca.subrange(0, cb.len() as int).subrange(
            0,
            cc.len() as int,
        ));
    }
}

/// Whatever is put behind an absolute path and a separator lies below it.
pub proof fn law_longer_path_is_below(
    platform: Platform,
    base: Seq<char>,
    rest: Seq<char>,
)
    requires
        is_absolute(platform, base),
    ensures
        platform == Platform::Unix ==> starts_with(platform, base.push('/') + rest, base),
        platform == Platform::Windows ==> starts_with(platform, base.push('\\') + rest, base),
{
    let sep = if platform == Platform::Unix {
        '/'
    } else {
        '\\'
    };
    let path = base.push(sep) + rest;
    lemma_absolute_length(platform, base);
    if platform == Platform::Windows {
        if base.len() >= 4 {
            assert(path.take(4) =~= base.take(4));
        } else {
            assert(!is_verbatim(base));
            assert(base.len() == 3);
            assert(path.take(4)[3] == sep);
            assert(has_drive(base) || !is_verbatim(path)) by {
                if is_verbatim(path) {
                    assert(path.take(4)[2] == '?');
                    assert(path[2] == base[2]);
                    lemma_short_share(base);
                }
            }
            if has_drive(base) {
                assert(path.take(4)[0] == base[0]);
                assert(!is_verbatim(path));
            }
        }
        assert(is_verbatim(path) == is_verbatim(base));
        if is_verbatim(base) {
            let a = path.skip(4);
            let b = base.skip(4);
            if b.len() >= 2 {
                assert(a[0] == b[0] && a[1] == b[1]);
            }
            assert(drive_place(path) == drive_place(base));
        } else {
            assert(path[0] == base[0] && path[1] == base[1]);
            assert(drive_place(path) == drive_place(base));
        }
    }
    let form = drive_form(platform, base);
    assert(drive_form(platform, path) =~= form.push(sep) + rest);
    lemma_segments_append(platform, form, sep, rest);
    lemma_segments_nonempty(platform, form);
    lemma_kept_append(segments(platform, form), segments(platform, rest));
    let cb = components(platform, base);
    let cp = components(platform, path);
    assert((form.push(sep) + rest)[0] == form[0]);
    assert(cp.subrange(0, cb.len() as int) =~= cb);
}

proof fn lemma_absolute_length(platform: Platform, s: Seq<char>)
    requires
        is_absolute(platform, s),
    ensures
        s.len() > 0,
        platform == Platform::Windows ==> s.len() >= 3,
{
    if platform == Platform::Windows && s.len() < 3 {
        let rest = s.skip(2);
        assert(rest =~= Seq::<char>::empty());
        assert(segments(Platform::Windows, rest).len() == 1);
    }
}

/// Two separators and one more character are no share.
proof fn lemma_short_share(s: Seq<char>)
    requires
        s.len() == 3,
    ensures
        !has_share(s),
{
    let rest = s.skip(2);
    assert(rest.drop_last() =~= Seq::<char>::empty());
    let list = segments(Platform::Windows, rest);
    assert(segments(Platform::Windows, Seq::<char>::empty()) =~= seq![Seq::<char>::empty()]);
    if is_separator(Platform::Windows, rest.last()) {
        assert(list[0] == Seq::<char>::empty());
    } else {
        assert(list.len() == 1);
    }
}

/// Overlap has no direction: a path that lies below another overlaps it, and is overlapped by it.
pub proof fn law_overlap_has_no_direction(platform: Platform, left: Seq<char>, right: Seq<char>)
    ensures
        overlap(platform, left, right) == overlap(platform, right, left),
        overlap(platform, left, left),
        platform == Platform::Unix && starts_with(platform, left, right) ==> overlap(
            platform,
            left,
            right,
        ),
        platform == Platform::Windows && lowercase(right).push('\\').is_prefix_of(lowercase(left))
            ==> overlap(platform, left, right),
        platform == Platform::Unix && overlap(platform, left, right) ==> starts_with(
            platform,
            left,
            right,
        ) || starts_with(platform, right, left),
        platform == Platform::Windows && overlap(platform, left, right) ==> lowercase(left)
            == lowercase(right) || lowercase(right).push('\\').is_prefix_of(lowercase(left))
            || lowercase(left).push('\\').is_prefix_of(lowercase(right)),
{
    law_below_is_an_order(platform, left, left, left);
}

/// A Windows path that is written with backslashes, none of them at its end, is within a root that
/// is written so where it is the root, in whatever case, or goes on behind it with a backslash.
/// A slash means what a backslash does, and one at the end does not matter.
pub proof fn law_within_means_behind_a_backslash(root: Seq<char>, candidate: Seq<char>)
    ensures
        within(root, root),
        !root.contains('/') && !candidate.contains('/') && (root.len() > 0 ==> root.last() != '\\')
            && (candidate.len() > 0 ==> candidate.last() != '\\') ==> (within(root, candidate)
            <==> lowercase(candidate) == lowercase(root) || lowercase(root).push(
            '\\',
        ).is_prefix_of(lowercase(candidate))),
        within(root.push('\\'), candidate) == within(root, candidate),
        within(root.push('/'), candidate) == within(root, candidate),
        within(root, candidate.push('\\')) == within(root, candidate),
        within(root, candidate.push('/')) == within(root, candidate),
{
    lemma_comparable(root);
    lemma_comparable(candidate);
}

proof fn lemma_comparable(s: Seq<char>)
    ensures
        comparable(s.push('\\')) == comparable(s),
        comparable(s.push('/')) == comparable(s),
        !s.contains('/') && (s.len() > 0 ==> s.last() != '\\') ==> comparable(s) == lowercase(s),
{
    let plain = replaced(s, '/', '\\');
    let more = replaced(s.push('\\'), '/', '\\');
    let other = replaced(s.push('/'), '/', '\\');
    assert(more =~= plain.push('\\'));
    assert(other =~= plain.push('\\'));
    assert(plain.push('\\').drop_last() =~= plain);
    if !s.contains('/') {
        assert forall|i: int| 0 <= i < s.len() implies plain[i] == s[i] by {
            assert(s.contains(s[i]));
        }
        assert(plain =~= s);
    }
}

/// A path taken relative to a directory goes on behind it, with one slash between them; an absolute
/// one is taken as it is.
pub proof fn law_joined_unix_path(base: Seq<char>, path: Seq<char>)
    ensures
        is_absolute(Platform::Unix, path) ==> unix_join(base, path) == path,
        !is_absolute(Platform::Unix, path) && base.len() > 0 && base.last() != '/' ==> unix_join(
            base,
            path,
        ) == base.push('/') + path,
        !is_absolute(Platform::Unix, path) && base.len() > 0 && base.last() == '/' ==> unix_join(
            base,
            path,
        ) == base + path,
        !is_absolute(Platform::Unix, path) && is_absolute(Platform::Unix, base) ==> starts_with(
            Platform::Unix,
            unix_join(base, path),
            base,
        ) && is_absolute(Platform::Unix, unix_join(base, path)),
{
    if !is_absolute(Platform::Unix, path) && base.len() > 0 {
        if base.last() != '/' {
            assert(unix_join(base, path) =~= base.push('/') + path);
            if is_absolute(Platform::Unix, base) {
                law_longer_path_is_below(Platform::Unix, base, path);
            }
        } else if is_absolute(Platform::Unix, base) {
            let front = base.drop_last();
            let whole = base + path;
            assert(base =~= front.push('/') + Seq::<char>::empty());
            assert(whole =~= front.push('/') + path);
            lemma_segments_append(Platform::Unix, front, '/', Seq::empty());
            lemma_segments_append(Platform::Unix, front, '/', path);
            let list = segments(Platform::Unix, front);
            lemma_kept_append(list, segments(Platform::Unix, Seq::empty()));
            lemma_kept_append(list, segments(Platform::Unix, path));
            let one = segments(Platform::Unix, Seq::empty());
            assert(one =~= seq![Seq::<char>::empty()]);
            lemma_nothing_kept();
            let cb = components(Platform::Unix, base);
            let cw = components(Platform::Unix, whole);
            assert(cw.subrange(0, cb.len() as int) =~= cb);
        }
    }
}

/// A name taken relative to a directory on Windows goes on behind it with one separator, unless the
/// directory already ends with one or is a bare drive.
pub proof fn law_joined_windows_path(base: Seq<char>, name: Seq<char>)
    ensures
        base.is_prefix_of(windows_join(base, name)),
        name.is_suffix_of(windows_join(base, name)),
        base.len() > 2 && base.last() != '/' && base.last() != '\\' ==> windows_join(base, name)
            == base.push('\\') + name,
        base.len() > 2 && (base.last() == '/' || base.last() == '\\') ==> windows_join(base, name)
            == base + name,
{
    let whole = windows_join(base, name);
    assert(whole.subrange(0, base.len() as int) =~= base);
    assert(whole.subrange(whole.len() - name.len(), whole.len() as int) =~= name);
    if base.len() > 2 && base.last() != '/' && base.last() != '\\' {
        assert(whole =~= base.push('\\') + name);
    }
}

/// Of several places the first that is there is taken, and one is taken where any is there.
pub proof fn law_first_place_that_is_there(places: Seq<(String, bool)>)
    ensures
        match first_there(places) {
            Some(place) => exists|i: int|
                0 <= i < places.len() && (#[trigger] places[i]).1 && places[i].0@ == place
                    && forall|j: int| 0 <= j < i ==> !(#[trigger] places[j]).1,
            None => forall|i: int| 0 <= i < places.len() ==> !(#[trigger] places[i]).1,
        },
    decreases places.len(),
{
    if places.len() > 0 && !places[0].1 {
        let rest = places.drop_first();
        law_first_place_that_is_there(rest);
        match first_there(rest) {
            Some(place) => {
                let i = choose|i: int|
                    0 <= i < rest.len() && (#[trigger] rest[i]).1 && rest[i].0@ == place
                        && forall|j: int| 0 <= j < i ==> !(#[trigger] rest[j]).1;
                assert(places[i + 1] == rest[i]);
                assert forall|j: int| 0 <= j < i + 1 implies !(#[trigger] places[j]).1 by {
                    if j > 0 {
                        assert(rest[j - 1] == places[j]);
                    }
                }
            },
            None => {
                assert forall|i: int| 0 <= i < places.len() implies !(#[trigger] places[i]).1 by {
                    if i > 0 {
                        assert(rest[i - 1] == places[i]);
                    }
                }
            },
        }
    } else if places.len() > 0 {
        assert(places[0].1);
    }
}

/// The segments of several texts, with a backslash as a separator too, one after another.
pub open spec fn all_segments(list: Seq<Seq<char>>) -> Seq<Seq<char>>
    decreases list.len(),
{
    if list.len() == 0 {
        Seq::empty()
    } else {
        all_segments(list.drop_last()) + segments(Platform::Windows, list.last())
    }
}

proof fn lemma_joined_segments(list: Seq<Seq<char>>)
    requires
        list.len() > 0,
    ensures
        segments(Platform::Windows, joined(list, seq!['/'])) == all_segments(list),
    decreases list.len(),
{
    reveal_with_fuel(all_segments, 2);
    if list.len() == 1 {
        assert(list.drop_last() =~= Seq::<Seq<char>>::empty());
        assert(all_segments(list) =~= segments(Platform::Windows, list[0]));
    } else {
        let front = list.drop_last();
        lemma_joined_segments(front);
        let head = joined(front, seq!['/']);
        assert(joined(list, seq!['/']) =~= head.push('/') + list.last());
        lemma_segments_append(Platform::Windows, head, '/', list.last());
    }
}

/// Dropping what names nothing drops no segment that names the directory above.
proof fn lemma_parent_is_kept(list: Seq<Seq<char>>)
    ensures
        all_segments(list).contains(seq!['.', '.']) ==> all_segments(kept(list)).contains(
            seq!['.', '.'],
        ),
    decreases list.len(),
{
    let up = seq!['.', '.'];
    if list.len() > 0 && all_segments(list).contains(up) {
        let front = list.drop_last();
        let last = segments(Platform::Windows, list.last());
        lemma_parent_is_kept(front);
        let k = choose|k: int| 0 <= k < all_segments(list).len() && all_segments(list)[k] == up;
        if k < all_segments(front).len() {
            assert(all_segments(front)[k] == up);
        } else {
            assert(last[k - all_segments(front).len()] == up);
            lemma_small_segments();
        }
        if is_kept(list.last()) {
            let now = kept(list);
            assert(now.drop_last() =~= kept(front));
            assert(all_segments(now) =~= all_segments(kept(front)) + last);
            if k < all_segments(front).len() {
                let j = choose|j: int|
                    0 <= j < all_segments(kept(front)).len() && all_segments(kept(front))[j] == up;
                assert(all_segments(now)[j] == up);
            } else {
                let j = k - all_segments(front).len() + all_segments(kept(front)).len();
                assert(all_segments(now)[j] == up);
            }
        } else {
            assert(list.last() =~= Seq::<char>::empty() || list.last() == seq!['.']);
        }
    }
}

/// Neither nothing nor a dot has a segment that names the directory above.
proof fn lemma_small_segments()
    ensures
        segments(Platform::Windows, Seq::<char>::empty()) == seq![Seq::<char>::empty()],
        segments(Platform::Windows, seq!['.']) == seq![seq!['.']],
{
    reveal_with_fuel(segments, 2);
    let dot = seq!['.'];
    assert(dot.drop_last() =~= Seq::<char>::empty());
    let none = segments(Platform::Windows, Seq::<char>::empty());
    assert(none =~= seq![Seq::<char>::empty()]);
    assert(none.last().push('.') =~= seq!['.']);
    assert(segments(Platform::Windows, dot) =~= seq![seq!['.']]);
}

/// A working directory is refused wherever one of its segments names the directory above, be it
/// between slashes or backslashes, and wherever it begins with a separator.
pub proof fn law_leaving_path_is_refused(platform: Platform, s: Seq<char>)
    ensures
        segments(Platform::Windows, s).contains(seq!['.', '.']) ==> cwd_fault(platform, s) is Some,
        s.len() > 0 && (s[0] == '/' || s[0] == '\\') ==> cwd_fault(platform, s) is Some,
        is_absolute(platform, s) ==> cwd_fault(platform, s) is Some,
        platform == Platform::Windows && has_drive(s) ==> cwd_fault(platform, s) is Some,
{
    if platform == Platform::Unix {
        let list = segments(platform, s);
        lemma_segments_nonempty(platform, s);
        lemma_segments_join(s);
        lemma_joined_segments(list);
        lemma_parent_is_kept(list);
        if segments(Platform::Windows, s).contains(seq!['.', '.']) {
            let form = kept(list);
            assert(all_segments(form).contains(seq!['.', '.']));
            assert(form.len() > 0);
            lemma_joined_segments(form);
        }
        if s.len() > 0 && s[0] == '\\' {
            lemma_leading_char(s);
            lemma_kept_first(list);
            lemma_joined_start(kept(list), seq!['/']);
        }
    }
}

/// The first segment of a path that does not begin with a separator begins as the path does.
proof fn lemma_leading_char(s: Seq<char>)
    requires
        s.len() > 0,
        s[0] != '/',
    ensures
        segments(Platform::Unix, s)[0].len() > 0,
        segments(Platform::Unix, s)[0][0] == s[0],
    decreases s.len(),
{
    lemma_segments_nonempty(Platform::Unix, s.drop_last());
    if s.len() == 1 {
        assert(s.drop_last() =~= Seq::<char>::empty());
        assert(segments(Platform::Unix, Seq::<char>::empty()) =~= seq![Seq::<char>::empty()]);
    } else {
        lemma_leading_char(s.drop_last());
        assert(s.drop_last()[0] == s[0]);
    }
}

proof fn lemma_kept_first(list: Seq<Seq<char>>)
    requires
        list.len() > 0,
        is_kept(list[0]),
    ensures
        kept(list).len() > 0,
        kept(list)[0] == list[0],
    decreases list.len(),
{
    reveal_with_fuel(kept, 2);
    if list.len() > 1 {
        lemma_kept_first(list.drop_last());
    } else {
        assert(list.drop_last() =~= Seq::<Seq<char>>::empty());
    }
}

/// A path of plain names, none of which leads up, is a working directory on either platform, and is
/// kept as it is but for the separators, which are written as slashes.
pub proof fn law_plain_path_is_kept(platform: Platform, s: Seq<char>)
    requires
        forall|i: int|
            0 <= i < segments(Platform::Windows, s).len() ==> is_kept(
                #[trigger] segments(Platform::Windows, s)[i],
            ) && segments(Platform::Windows, s)[i] != seq!['.', '.'],
        !has_drive(s),
    ensures
        cwd_fault(platform, s) is None,
        replaced(relative_form(platform, s), '\\', '/') == replaced(s, '\\', '/'),
        platform == Platform::Unix ==> relative_form(platform, s) == s,
{
    let all = segments(Platform::Windows, s);
    let slashes = replaced(s, '\\', '/');
    lemma_segments_nonempty(Platform::Windows, s);
    lemma_slashes_only(s);
    lemma_segments_join(slashes);
    if s.len() > 0 {
        lemma_first_segment(Platform::Windows, s);
        assert(is_kept(all[0]));
    } else {
        assert(is_kept(all[0]));
    }
    lemma_all_kept(all);
    if platform == Platform::Windows {
        assert(relative_form(platform, s) == slashes);
        lemma_segments_free(Platform::Windows, s);
        assert(segments(Platform::Windows, slashes) == all) by {
            lemma_slashes_only(slashes);
            assert(replaced(slashes, '\\', '/') =~= slashes);
        }
        assert(replaced(slashes, '\\', '/') =~= slashes);
        assert(slashes[0] != '\\');
    } else {
        let list = segments(Platform::Unix, s);
        lemma_segments_join(s);
        lemma_coarse_kept(s);
        lemma_all_kept(list);
        assert(relative_form(platform, s) == s);
        if list.contains(seq!['.', '.']) {
            lemma_coarse_contains(s);
        }
    }
}

/// Where every finer segment names something, so does every segment between slashes.
proof fn lemma_coarse_kept(s: Seq<char>)
    requires
        forall|i: int|
            0 <= i < segments(Platform::Windows, s).len() ==> is_kept(
                #[trigger] segments(Platform::Windows, s)[i],
            ),
    ensures
        forall|i: int|
            0 <= i < segments(Platform::Unix, s).len() ==> is_kept(
                #[trigger] segments(Platform::Unix, s)[i],
            ),
{
    let list = segments(Platform::Unix, s);
    lemma_segments_nonempty(Platform::Unix, s);
    lemma_segments_join(s);
    lemma_joined_segments(list);
    lemma_small_segments();
    assert forall|i: int| 0 <= i < list.len() implies is_kept(#[trigger] list[i]) by {
        lemma_part_of_all(list, i);
        let part = segments(Platform::Windows, list[i]);
        lemma_segments_nonempty(Platform::Windows, list[i]);
        if !is_kept(list[i]) {
            assert(list[i] =~= Seq::<char>::empty() || list[i] == seq!['.']);
            assert(all_segments(list).contains(part[0]));
            let k = choose|k: int| 0 <= k < all_segments(list).len() && all_segments(list)[k]
                == part[0];
            assert(is_kept(segments(Platform::Windows, s)[k]));
        }
    }
}

/// A segment between slashes that names the directory above is a finer segment too.
proof fn lemma_coarse_contains(s: Seq<char>)
    requires
        segments(Platform::Unix, s).contains(seq!['.', '.']),
    ensures
        segments(Platform::Windows, s).contains(seq!['.', '.']),
{
    let list = segments(Platform::Unix, s);
    lemma_segments_nonempty(Platform::Unix, s);
    lemma_segments_join(s);
    lemma_joined_segments(list);
    let i = choose|i: int| 0 <= i < list.len() && list[i] == seq!['.', '.'];
    lemma_part_of_all(list, i);
    reveal_with_fuel(segments, 3);
    let up = seq!['.', '.'];
    assert(up.drop_last() =~= seq!['.']);
    lemma_small_segments();
    assert(seq!['.'].push('.') =~= up);
    assert(segments(Platform::Windows, up) =~= seq![up]);
    assert(segments(Platform::Windows, up)[0] == up);
    assert(all_segments(list).contains(up));
}

proof fn lemma_part_of_all(list: Seq<Seq<char>>, i: int)
    requires
        0 <= i < list.len(),
    ensures
        forall|k: int|
            0 <= k < segments(Platform::Windows, list[i]).len() ==> all_segments(list).contains(
                #[trigger] segments(Platform::Windows, list[i])[k],
            ),
    decreases list.len(),
{
    let part = segments(Platform::Windows, list[i]);
    let front = list.drop_last();
    assert forall|k: int| 0 <= k < part.len() implies all_segments(list).contains(
        #[trigger] part[k],
    ) by {
        if i == list.len() - 1 {
            assert(all_segments(list)[all_segments(front).len() + k] == part[k]);
        } else {
            lemma_part_of_all(front, i);
            assert(front[i] == list[i]);
            assert(all_segments(front).contains(part[k]));
            let j = choose|j: int|
                0 <= j < all_segments(front).len() && all_segments(front)[j] == part[k];
            assert(all_segments(list)[j] == part[k]);
        }
    }
}

/// On Unix an absolute path begins with a slash. On Windows it begins with a drive and a separator,
/// or with two separators: a drive alone, or one separator alone, still depends on where it is
/// taken from.
pub proof fn law_absolute_paths(s: Seq<char>)
    ensures
        is_absolute(Platform::Unix, s) <==> s.len() > 0 && s[0] == '/',
        s.len() > 2 && (('a' <= s[0] <= 'z') || ('A' <= s[0] <= 'Z')) && s[1] == ':' && (s[2]
            == '\\' || s[2] == '/') ==> is_absolute(Platform::Windows, s),
        s.len() > 3 && s[0] == '\\' && s[1] == '\\' && (s[2] == '?' || s[2] == '.') && s[3] == '\\'
            ==> is_absolute(Platform::Windows, s),
        is_absolute(Platform::Windows, s) && s.len() > 1 && s[0] != '\\' && s[0] != '/' ==> s.len()
            > 2 && s[1] == ':' && (s[2] == '\\' || s[2] == '/'),
        is_absolute(Platform::Windows, s) && s.len() > 0 && (s[0] == '\\' || s[0] == '/') ==> s.len()
            > 2 && (s[1] == '\\' || s[1] == '/'),
        s.len() <= 2 ==> !is_absolute(Platform::Windows, s),
{
    if is_absolute(Platform::Windows, s) {
        lemma_absolute_length(Platform::Windows, s);
    }
    if s.len() > 3 {
        let front = s.take(4);
        assert(front[0] == s[0] && front[1] == s[1] && front[2] == s[2] && front[3] == s[3]);
        if s[0] == '\\' && s[1] == '\\' && s[2] == '?' && s[3] == '\\' {
            assert(front =~= seq!['\\', '\\', '?', '\\']);
        }
    }
}

/// On Unix, a path of plain names is its own form, also where it begins as a drive does elsewhere.
pub proof fn law_plain_path_is_its_own_form(s: Seq<char>)
    requires
        forall|i: int|
            0 <= i < segments(Platform::Windows, s).len() ==> is_kept(
                #[trigger] segments(Platform::Windows, s)[i],
            ),
    ensures
        relative_form(Platform::Unix, s) == s,
{
    lemma_coarse_kept(s);
    lemma_all_kept(segments(Platform::Unix, s));
    lemma_segments_join(s);
}

/// Nothing, and a dot, name the directory itself.
pub proof fn lemma_small_forms(platform: Platform)
    ensures
        relative_form(platform, Seq::<char>::empty()) == Seq::<char>::empty(),
        relative_form(platform, seq!['.']) == Seq::<char>::empty(),
{
    reveal_with_fuel(segments, 2);
    reveal_with_fuel(kept, 2);
    let dot = seq!['.'];
    assert(dot.drop_last() =~= Seq::<char>::empty());
    let none = segments(platform, Seq::<char>::empty());
    assert(none =~= seq![Seq::<char>::empty()]);
    assert(none.last().push('.') =~= dot);
    let one = segments(platform, dot);
    assert(one =~= seq![dot]);
    assert(one.drop_last() =~= Seq::<Seq<char>>::empty());
    assert(none.drop_last() =~= Seq::<Seq<char>>::empty());
    assert(one.last() == dot);
    assert(none.last() == Seq::<char>::empty());
    assert(kept(one) =~= Seq::<Seq<char>>::empty());
    assert(kept(none) =~= Seq::<Seq<char>>::empty());
}

/// The form of a path of plain names is not empty.
pub proof fn lemma_nonempty_form(platform: Platform, s: Seq<char>)
    requires
        forall|i: int|
            0 <= i < segments(Platform::Windows, s).len() ==> is_kept(
                #[trigger] segments(Platform::Windows, s)[i],
            ),
    ensures
        relative_form(platform, s).len() > 0,
{
    let list = segments(platform, s);
    lemma_segments_nonempty(platform, s);
    if platform == Platform::Unix {
        lemma_coarse_kept(s);
    }
    assert(is_kept(list[0]));
    lemma_kept_first(list);
    lemma_joined_start(kept(list), seq!['/']);
}

} // verus!
