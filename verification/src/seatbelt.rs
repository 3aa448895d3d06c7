//! The language of Seatbelt profiles: strings in it, and rules for lists of paths.
use vstd::prelude::*;
use vstd::string::*;

use crate::text::{chars_of, concat3, string_of, texts};

verus! {

/// The control characters of Unicode.
pub open spec fn is_control(c: char) -> bool {
    c <= '\u{1f}' || ('\u{7f}' <= c && c <= '\u{9f}')
}

/// Whether a path can stand in a profile.
pub open spec fn is_printable(path: Seq<char>) -> bool {
    forall|i: int| 0 <= i < path.len() ==> !is_control(#[trigger] path[i])
}

/// The text with a backslash before every backslash and every quote.
pub open spec fn escaped(s: Seq<char>) -> Seq<char>
    decreases s.len(),
{
    if s.len() == 0 {
        Seq::empty()
    } else if s[0] == '\\' || s[0] == '"' {
        seq!['\\', s[0]] + escaped(s.drop_first())
    } else {
        seq![s[0]] + escaped(s.drop_first())
    }
}

/// What is read of a string behind its opening quote: the text, and what follows the closing
/// quote. A character behind a backslash stands for itself.
pub open spec fn read_string(s: Seq<char>) -> Option<(Seq<char>, Seq<char>)>
    decreases s.len(),
{
    if s.len() == 0 {
        None
    } else if s[0] == '"' {
        Some((Seq::empty(), s.drop_first()))
    } else if s[0] == '\\' {
        if s.len() == 1 {
            None
        } else {
            match read_string(s.skip(2)) {
                Some((text, rest)) => Some((seq![s[1]] + text, rest)),
                None => None,
            }
        }
    } else {
        match read_string(s.drop_first()) {
            Some((text, rest)) => Some((seq![s[0]] + text, rest)),
            None => None,
        }
    }
}

/// An escaped text in quotes is read back as the text, whatever it holds and whatever follows: no
/// path can end the string that it stands in.
pub proof fn law_escaped_text_reads_back(s: Seq<char>, rest: Seq<char>)
    ensures
        read_string(escaped(s) + seq!['"'] + rest) == Some((s, rest)),
    decreases s.len(),
{
    let whole = escaped(s) + seq!['"'] + rest;
    if s.len() == 0 {
        assert(whole =~= seq!['"'] + rest);
        assert(whole.drop_first() =~= rest);
        assert(s =~= Seq::<char>::empty());
    } else {
        law_escaped_text_reads_back(s.drop_first(), rest);
        let inner = escaped(s.drop_first()) + seq!['"'] + rest;
        assert(seq![s[0]] + s.drop_first() =~= s);
        if s[0] == '\\' || s[0] == '"' {
            assert(whole =~= seq!['\\', s[0]] + inner);
            assert(whole.skip(2) =~= inner);
        } else {
            assert(whole =~= seq![s[0]] + inner);
            assert(whole.drop_first() =~= inner);
        }
    }
}

/// The form in which a path stands in a profile.
pub fn seatbelt_escape(path: &str) -> (r: Result<String, String>)
    ensures
        match r {
            Ok(text) => is_printable(path@) && text@ == escaped(path@),
            Err(message) => !is_printable(path@) && message@
                == "Seatbelt path contains control characters"@,
        },
{
    let chars = chars_of(path);
    let mut out: Vec<char> = Vec::new();
    let mut i: usize = 0;
    proof {
        assert(path@.skip(0) =~= path@);
        assert(out@ + escaped(path@) =~= escaped(path@));
    }
    while i < chars.len()
        invariant
            i <= chars@.len(),
            chars@ == path@,
            forall|j: int| 0 <= j < i ==> !is_control(#[trigger] path@[j]),
            out@ + escaped(path@.skip(i as int)) == escaped(path@),
        decreases chars@.len() - i,
    {
        let c = chars[i];
        if c <= '\u{1f}' || ('\u{7f}' <= c && c <= '\u{9f}') {
            assert(is_control(path@[i as int]));
            return Err("Seatbelt path contains control characters".to_owned());
        }
        let ghost before = out@;
        let ghost here = path@.skip(i as int);
        if c == '\\' || c == '"' {
            out.push('\\');
        }
        out.push(c);
        proof {
            assert(here[0] == c);
            assert(here.drop_first() =~= path@.skip(i + 1));
            let rest = escaped(path@.skip(i + 1));
            if c == '\\' || c == '"' {
                assert(out@ + rest =~= before + (seq!['\\', c] + rest));
            } else {
                assert(out@ + rest =~= before + (seq![c] + rest));
            }
        }
        i = i + 1;
    }
    proof {
        assert(path@.skip(i as int) =~= Seq::<char>::empty());
        assert(out@ + Seq::<char>::empty() =~= out@);
    }
    Ok(string_of(&out))
}

/// A rule for every path: `front`, the path, `back`.
pub open spec fn rules_for(paths: Seq<Seq<char>>, front: Seq<char>, back: Seq<char>) -> Seq<char>
    decreases paths.len(),
{
    if paths.len() == 0 {
        Seq::empty()
    } else {
        rules_for(paths.drop_last(), front, back) + (front + escaped(paths.last()) + back)
    }
}

/// Two rules for every path: `front`, the path, `middle`, the path again, `back`.
pub open spec fn double_rules_for(
    paths: Seq<Seq<char>>,
    front: Seq<char>,
    middle: Seq<char>,
    back: Seq<char>,
) -> Seq<char>
    decreases paths.len(),
{
    if paths.len() == 0 {
        Seq::empty()
    } else {
        let path = escaped(paths.last());
        double_rules_for(paths.drop_last(), front, middle, back) + (front + path + middle + path
            + back)
    }
}

/// Whether all paths can stand in a profile.
pub open spec fn all_printable(paths: Seq<Seq<char>>) -> bool {
    forall|i: int| 0 <= i < paths.len() ==> is_printable(#[trigger] paths[i])
}

/// The rules for a list of paths, each path once.
pub fn path_rules(paths: &Vec<String>, front: &str, back: &str) -> (r: Result<String, String>)
    ensures
        match r {
            Ok(rules) => all_printable(texts(paths@)) && rules@ == rules_for(
                texts(paths@),
                front@,
                back@,
            ),
            Err(message) => !all_printable(texts(paths@)) && message@
                == "Seatbelt path contains control characters"@,
        },
{
    let ghost all = texts(paths@);
    let mut rules = String::new();
    let mut i: usize = 0;
    proof {
        assert(all.take(0) =~= Seq::<Seq<char>>::empty());
        assert(rules@ =~= Seq::<char>::empty());
    }
    while i < paths.len()
        invariant
            i <= paths@.len(),
            all == texts(paths@),
            all_printable(all.take(i as int)),
            rules@ == rules_for(all.take(i as int), front@, back@),
        decreases paths@.len() - i,
    {
        proof {
            assert(all.take(i + 1).drop_last() =~= all.take(i as int));
            assert(all[i as int] == paths@[i as int]@);
        }
        match seatbelt_escape(&paths[i]) {
            Ok(path) => {
                rules.append(&concat3(front, &path, back));
            },
            Err(message) => {
                assert(!is_printable(all[i as int]));
                return Err(message);
            },
        }
        proof {
            assert forall|j: int| 0 <= j < i + 1 implies is_printable(#[trigger] all.take(i + 1)[j]) by {
                if j < i {
                    assert(is_printable(all.take(i as int)[j]));
                }
            }
        }
        i = i + 1;
    }
    proof {
        assert(all.take(i as int) =~= all);
    }
    Ok(rules)
}

/// The rules for a list of paths, each path twice.
pub fn double_path_rules(paths: &Vec<String>, front: &str, middle: &str, back: &str) -> (r: Result<
    String,
    String,
>)
    ensures
        match r {
            Ok(rules) => all_printable(texts(paths@)) && rules@ == double_rules_for(
                texts(paths@),
                front@,
                middle@,
                back@,
            ),
            Err(message) => !all_printable(texts(paths@)) && message@
                == "Seatbelt path contains control characters"@,
        },
{
    let ghost all = texts(paths@);
    let mut rules = String::new();
    let mut i: usize = 0;
    proof {
        assert(all.take(0) =~= Seq::<Seq<char>>::empty());
        assert(rules@ =~= Seq::<char>::empty());
    }
    while i < paths.len()
        invariant
            i <= paths@.len(),
            all == texts(paths@),
            all_printable(all.take(i as int)),
            rules@ == double_rules_for(all.take(i as int), front@, middle@, back@),
        decreases paths@.len() - i,
    {
        proof {
            assert(all.take(i + 1).drop_last() =~= all.take(i as int));
            assert(all[i as int] == paths@[i as int]@);
        }
        match seatbelt_escape(&paths[i]) {
            Ok(path) => {
                rules.append(&concat3(&concat3(front, &path, middle), &path, back));
            },
            Err(message) => {
                assert(!is_printable(all[i as int]));
                return Err(message);
            },
        }
        proof {
            assert forall|j: int| 0 <= j < i + 1 implies is_printable(#[trigger] all.take(i + 1)[j]) by {
                if j < i {
                    assert(is_printable(all.take(i as int)[j]));
                }
            }
        }
        i = i + 1;
    }
    proof {
        assert(all.take(i as int) =~= all);
    }
    Ok(rules)
}

/// Every path has its rule, with the path escaped in it, behind those of the paths before.
pub proof fn law_every_path_has_its_rule(
    paths: Seq<Seq<char>>,
    path: Seq<char>,
    front: Seq<char>,
    middle: Seq<char>,
    back: Seq<char>,
)
    ensures
        rules_for(Seq::empty(), front, back) == Seq::<char>::empty(),
        rules_for(paths.push(path), front, back) == rules_for(paths, front, back) + front + escaped(
            path,
        ) + back,
        double_rules_for(Seq::empty(), front, middle, back) == Seq::<char>::empty(),
        double_rules_for(paths.push(path), front, middle, back) == double_rules_for(
            paths,
            front,
            middle,
            back,
        ) + front + escaped(path) + middle + escaped(path) + back,
{
    assert(paths.push(path).drop_last() =~= paths);
    assert(rules_for(paths.push(path), front, back) =~= rules_for(paths, front, back) + front
        + escaped(path) + back);
    assert(double_rules_for(paths.push(path), front, middle, back) =~= double_rules_for(
        paths,
        front,
        middle,
        back,
    ) + front + escaped(path) + middle + escaped(path) + back);
}

/// A path with a character by which it could leave its line, or that cannot be seen, has no rule.
pub proof fn law_no_control_character_in_a_path(path: Seq<char>, i: int)
    ensures
        0 <= i < path.len() && (path[i] == '\n' || path[i] == '\r' || path[i] == '\0' || path[i]
            == '\t' || path[i] == '\u{7f}') ==> !is_printable(path),
        (forall|k: int| 0 <= k < path.len() ==> ' ' <= #[trigger] path[k] <= '~') ==> is_printable(
            path,
        ),
{
    if 0 <= i < path.len() {
        assert(is_control(path[i]) ==> !is_printable(path));
    }
}

/// The characters that no path in a profile may have are those below the space, and those from the
/// delete character up to the last of the second block of controls.
pub proof fn law_control_characters(c: char)
    ensures
        is_control(c) <==> (c as u32) < 32 || 127 <= c as u32 <= 159,
        is_printable(seq![c]) <==> !is_control(c),
{
    if is_printable(seq![c]) {
        assert(!is_control(seq![c][0]));
    }
}

} // verus!
