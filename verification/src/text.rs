//! Text as sequences of characters: the string operations that the rest of the crate is built from,
//! each with its meaning stated on `Seq<char>`.
use vstd::prelude::*;
use vstd::string::*;
use vstd::utf8::*;

verus! {

/// `String::push`: appends one character to the end of the string.
pub assume_specification[ String::push ](s: &mut String, c: char)
    ensures
        final(s)@ == old(s)@.push(c),
;

/// Whether `a` comes strictly before `b` in the order of their characters' code points.
///
/// UTF-8 keeps that order, so this is also the byte order in which `String` is sorted.
pub open spec fn text_lt(a: Seq<char>, b: Seq<char>) -> bool
    decreases a.len(),
{
    if b.len() == 0 {
        false
    } else if a.len() == 0 {
        true
    } else if a[0] != b[0] {
        a[0] < b[0]
    } else {
        text_lt(a.drop_first(), b.drop_first())
    }
}

/// The text with every occurrence of one character replaced by another.
pub open spec fn replaced(s: Seq<char>, from: char, to: char) -> Seq<char> {
    s.map_values(|c: char| if c == from { to } else { c })
}

/// The ASCII lower-case form of a character; every other character is kept.
pub open spec fn ascii_lower(c: char) -> char {
    if 'A' <= c && c <= 'Z' {
        ((c as u8 + 32) as u8) as char
    } else {
        c
    }
}

/// The ASCII upper-case form of a character; every other character is kept.
pub open spec fn ascii_upper(c: char) -> char {
    if 'a' <= c && c <= 'z' {
        ((c as u8 - 32) as u8) as char
    } else {
        c
    }
}

pub open spec fn is_ascii_alnum(c: char) -> bool {
    ('a' <= c && c <= 'z') || ('A' <= c && c <= 'Z') || ('0' <= c && c <= '9')
}

/// The decimal digit character for a number below ten.
pub open spec fn digit_char(n: nat) -> char {
    ((48 + n) as u8) as char
}

/// The decimal rendering of a number, without leading zeros.
pub open spec fn decimal(n: nat) -> Seq<char>
    decreases n,
{
    if n < 10 {
        seq![digit_char(n)]
    } else {
        decimal(n / 10).push(digit_char(n % 10))
    }
}

/// The parts put one after another, with `sep` between neighbours.
pub open spec fn joined(parts: Seq<Seq<char>>, sep: Seq<char>) -> Seq<char>
    decreases parts.len(),
{
    if parts.len() == 0 {
        Seq::empty()
    } else if parts.len() == 1 {
        parts[0]
    } else {
        joined(parts.drop_last(), sep) + sep + parts.last()
    }
}

/// The text without the characters at its front for which `skip` holds.
pub open spec fn trimmed_start(s: Seq<char>, skip: spec_fn(char) -> bool) -> Seq<char>
    decreases s.len(),
{
    if s.len() > 0 && skip(s[0]) {
        trimmed_start(s.drop_first(), skip)
    } else {
        s
    }
}

/// The text without the characters at its back for which `skip` holds.
pub open spec fn trimmed_end(s: Seq<char>, skip: spec_fn(char) -> bool) -> Seq<char>
    decreases s.len(),
{
    if s.len() > 0 && skip(s.last()) {
        trimmed_end(s.drop_last(), skip)
    } else {
        s
    }
}

/// The texts that the strings of a list hold.
pub open spec fn texts(list: Seq<String>) -> Seq<Seq<char>> {
    list.map_values(|s: String| s@)
}

/// The ASCII letters and digits of a text, in order, but no more than `limit` of them.
pub open spec fn alnum_prefix(s: Seq<char>, limit: nat) -> Seq<char>
    decreases s.len(),
{
    if s.len() == 0 {
        Seq::empty()
    } else {
        let before = alnum_prefix(s.drop_last(), limit);
        if is_ascii_alnum(s.last()) && before.len() < limit {
            before.push(s.last())
        } else {
            before
        }
    }
}

/// A limited text is no longer than its limit, and as long as it where the whole text consists of
/// that many letters and digits.
pub proof fn lemma_alnum_prefix_len(s: Seq<char>, limit: nat)
    ensures
        alnum_prefix(s, limit).len() <= limit,
        (forall|i: int| 0 <= i < s.len() ==> is_ascii_alnum(#[trigger] s[i])) ==> alnum_prefix(
            s,
            limit,
        ).len() == if s.len() < limit {
            s.len()
        } else {
            limit
        },
    decreases s.len(),
{
    if s.len() > 0 {
        lemma_alnum_prefix_len(s.drop_last(), limit);
        if forall|i: int| 0 <= i < s.len() ==> is_ascii_alnum(#[trigger] s[i]) {
            assert(forall|i: int|
                0 <= i < s.drop_last().len() ==> is_ascii_alnum(#[trigger] s.drop_last()[i]));
        }
    }
}

/// Nothing comes before itself.
pub proof fn lemma_text_lt_irreflexive(a: Seq<char>)
    ensures
        !text_lt(a, a),
    decreases a.len(),
{
    if a.len() > 0 {
        lemma_text_lt_irreflexive(a.drop_first());
    }
}

/// The order is transitive.
pub proof fn lemma_text_lt_transitive(a: Seq<char>, b: Seq<char>, c: Seq<char>)
    requires
        text_lt(a, b),
        text_lt(b, c),
    ensures
        text_lt(a, c),
    decreases a.len(),
{
    if a.len() > 0 && b.len() > 0 && c.len() > 0 && a[0] == b[0] && b[0] == c[0] {
        lemma_text_lt_transitive(a.drop_first(), b.drop_first(), c.drop_first());
    }
}

/// Of two different texts one comes first.
pub proof fn lemma_text_lt_total(a: Seq<char>, b: Seq<char>)
    ensures
        a == b || text_lt(a, b) || text_lt(b, a),
    decreases a.len(),
{
    if a.len() == 0 || b.len() == 0 {
        if a.len() == 0 && b.len() == 0 {
            assert(a =~= b);
        }
    } else if a[0] == b[0] {
        lemma_text_lt_total(a.drop_first(), b.drop_first());
        if a.drop_first() == b.drop_first() {
            assert(a =~= seq![a[0]] + a.drop_first());
            assert(b =~= seq![b[0]] + b.drop_first());
        }
    }
}

/// The characters of a string, in order.
pub fn chars_of(s: &str) -> (r: Vec<char>)
    ensures
        r@ == s@,
{
    let mut out: Vec<char> = Vec::new();
    for c in iter: s.chars()
        invariant
            iter.seq() == s@,
            out@ == iter.seq().take(iter.index() as int),
    {
        out.push(c);
    }
    assert(out@ =~= s@);
    out
}

/// The string that consists of the given characters.
pub fn string_of(chars: &[char]) -> (r: String)
    ensures
        r@ == chars@,
{
    let mut out = String::new();
    let mut i: usize = 0;
    while i < chars.len()
        invariant
            i <= chars@.len(),
            out@ == chars@.take(i as int),
        decreases chars@.len() - i,
    {
        out.push(chars[i]);
        assert(chars@.take(i + 1) =~= chars@.take(i as int).push(chars@[i as int]));
        i = i + 1;
    }
    assert(out@ =~= chars@);
    out
}

/// The part of a character list from `from` up to, but not with, `to`.
pub fn part_of(chars: &[char], from: usize, to: usize) -> (r: Vec<char>)
    requires
        from <= to <= chars@.len(),
    ensures
        r@ == chars@.subrange(from as int, to as int),
{
    let mut out: Vec<char> = Vec::new();
    let mut i: usize = from;
    while i < to
        invariant
            from <= i <= to <= chars@.len(),
            out@ == chars@.subrange(from as int, i as int),
        decreases to - i,
    {
        out.push(chars[i]);
        i = i + 1;
    }
    out
}

/// The number of bytes that the text takes in UTF-8.
pub fn byte_len(s: &str) -> (r: usize)
    ensures
        r == encode_utf8(s@).len(),
{
    s.as_bytes().len()
}

/// A copy of a byte list.
pub fn bytes_of(s: &str) -> (r: Vec<u8>)
    ensures
        r@ == encode_utf8(s@),
{
    s.as_bytes_vec()
}

/// Whether the character occurs in the text.
pub fn has_char(s: &str, wanted: char) -> (r: bool)
    ensures
        r == s@.contains(wanted),
{
    let chars = chars_of(s);
    let mut i: usize = 0;
    while i < chars.len()
        invariant
            i <= chars@.len(),
            chars@ == s@,
            forall|j: int| 0 <= j < i ==> chars@[j] != wanted,
        decreases chars@.len() - i,
    {
        if chars[i] == wanted {
            return true;
        }
        i = i + 1;
    }
    false
}

/// Whether two character lists are the same.
pub fn same_chars(a: &[char], b: &[char]) -> (r: bool)
    ensures
        r == (a@ == b@),
{
    if a.len() != b.len() {
        return false;
    }
    let mut i: usize = 0;
    while i < a.len()
        invariant
            i <= a@.len() == b@.len(),
            forall|j: int| 0 <= j < i ==> a@[j] == b@[j],
        decreases a@.len() - i,
    {
        if a[i] != b[i] {
            return false;
        }
        i = i + 1;
    }
    assert(a@ =~= b@);
    true
}

/// Whether two texts are the same.
pub fn same_text(a: &str, b: &str) -> (r: bool)
    ensures
        r == (a@ == b@),
{
    same_chars(&chars_of(a), &chars_of(b))
}

/// Whether the text begins with the given prefix.
pub fn has_prefix(s: &str, prefix: &str) -> (r: bool)
    ensures
        r == prefix@.is_prefix_of(s@),
{
    let chars = chars_of(s);
    let wanted = chars_of(prefix);
    if wanted.len() > chars.len() {
        return false;
    }
    let mut i: usize = 0;
    while i < wanted.len()
        invariant
            i <= wanted@.len() <= chars@.len(),
            chars@ == s@,
            wanted@ == prefix@,
            forall|j: int| 0 <= j < i ==> chars@[j] == wanted@[j],
        decreases wanted@.len() - i,
    {
        if chars[i] != wanted[i] {
            assert(s@.subrange(0, prefix@.len() as int)[i as int] != prefix@[i as int]);
            return false;
        }
        i = i + 1;
    }
    assert(s@.subrange(0, prefix@.len() as int) =~= prefix@);
    true
}

/// Whether the text ends with the given suffix.
pub fn has_suffix(s: &str, suffix: &str) -> (r: bool)
    ensures
        r == suffix@.is_suffix_of(s@),
{
    let chars = chars_of(s);
    let wanted = chars_of(suffix);
    if wanted.len() > chars.len() {
        return false;
    }
    let offset: usize = chars.len() - wanted.len();
    let tail = part_of(&chars, offset, chars.len());
    same_chars(&tail, &wanted)
}

/// The text with every occurrence of one character replaced by another.
pub fn replace_char(s: &str, from: char, to: char) -> (r: String)
    ensures
        r@ == replaced(s@, from, to),
{
    let chars = chars_of(s);
    let mut out = String::new();
    let mut i: usize = 0;
    while i < chars.len()
        invariant
            i <= chars@.len(),
            chars@ == s@,
            out@ == replaced(s@.take(i as int), from, to),
        decreases chars@.len() - i,
    {
        let c = if chars[i] == from { to } else { chars[i] };
        out.push(c);
        assert(s@.take(i + 1) =~= s@.take(i as int).push(s@[i as int]));
        assert(out@ =~= replaced(s@.take(i + 1), from, to));
        i = i + 1;
    }
    assert(s@.take(i as int) =~= s@);
    out
}

/// Whether `a` comes strictly before `b`, character by character.
pub fn text_before(a: &str, b: &str) -> (r: bool)
    ensures
        r == text_lt(a@, b@),
{
    let x = chars_of(a);
    let y = chars_of(b);
    let mut i: usize = 0;
    proof {
        assert(x@.skip(0) =~= a@);
        assert(y@.skip(0) =~= b@);
    }
    while i < x.len() && i < y.len()
        invariant
            i <= x@.len(),
            i <= y@.len(),
            text_lt(a@, b@) == text_lt(x@.skip(i as int), y@.skip(i as int)),
        decreases x@.len() - i,
    {
        if x[i] != y[i] {
            return x[i] < y[i];
        }
        proof {
            assert(x@.skip(i as int).drop_first() =~= x@.skip(i + 1));
            assert(y@.skip(i as int).drop_first() =~= y@.skip(i + 1));
        }
        i = i + 1;
    }
    i < y.len()
}

/// `a` followed by `b`.
pub fn concat(a: &str, b: &str) -> (r: String)
    ensures
        r@ == a@ + b@,
{
    let mut out = a.to_owned();
    out.append(b);
    out
}

/// `a`, then `b`, then `c`.
pub fn concat3(a: &str, b: &str, c: &str) -> (r: String)
    ensures
        r@ == a@ + b@ + c@,
{
    let mut out = concat(a, b);
    out.append(c);
    out
}

/// The ASCII lower-case form of a character.
pub fn lower_char(c: char) -> (r: char)
    ensures
        r == ascii_lower(c),
{
    if 'A' <= c && c <= 'Z' {
        (c as u8 + 32) as char
    } else {
        c
    }
}

/// The ASCII upper-case form of a character.
pub fn upper_char(c: char) -> (r: char)
    ensures
        r == ascii_upper(c),
{
    if 'a' <= c && c <= 'z' {
        (c as u8 - 32) as char
    } else {
        c
    }
}

/// The text with its ASCII letters in lower case.
pub fn lower_text(s: &str) -> (r: String)
    ensures
        r@ == s@.map_values(|c: char| ascii_lower(c)),
{
    let chars = chars_of(s);
    let mut out = String::new();
    let mut i: usize = 0;
    while i < chars.len()
        invariant
            i <= chars@.len(),
            chars@ == s@,
            out@ == s@.take(i as int).map_values(|c: char| ascii_lower(c)),
        decreases chars@.len() - i,
    {
        out.push(lower_char(chars[i]));
        assert(s@.take(i + 1) =~= s@.take(i as int).push(s@[i as int]));
        assert(out@ =~= s@.take(i + 1).map_values(|c: char| ascii_lower(c)));
        i = i + 1;
    }
    assert(s@.take(i as int) =~= s@);
    out
}

/// The decimal rendering of a number.
pub fn decimal_text(n: u64) -> (r: String)
    ensures
        r@ == decimal(n as nat),
    decreases n,
{
    if n < 10 {
        let mut out = String::new();
        out.push((48 + n as u8) as char);
        assert(out@ =~= decimal(n as nat));
        out
    } else {
        let mut out = decimal_text(n / 10);
        out.push((48 + (n % 10) as u8) as char);
        out
    }
}

/// The parts put one after another, with the separator between neighbours.
pub fn join_texts(parts: &Vec<String>, sep: &str) -> (r: String)
    ensures
        r@ == joined(texts(parts@), sep@),
{
    let mut out = String::new();
    let mut i: usize = 0;
    while i < parts.len()
        invariant
            i <= parts@.len(),
            out@ == joined(texts(parts@).take(i as int), sep@),
        decreases parts@.len() - i,
    {
        proof {
            assert(texts(parts@).take(i + 1).drop_last() =~= texts(parts@).take(i as int));
        }
        if i > 0 {
            out.append(sep);
        }
        out.append(&parts[i]);
        assert(out@ =~= joined(texts(parts@).take(i + 1), sep@));
        i = i + 1;
    }
    assert(texts(parts@).take(i as int) =~= texts(parts@));
    out
}

/// A copy of a list of strings.
pub fn copy_texts(list: &Vec<String>) -> (r: Vec<String>)
    ensures
        texts(r@) == texts(list@),
        r@ == list@,
{
    let mut out: Vec<String> = Vec::new();
    let mut i: usize = 0;
    while i < list.len()
        invariant
            i <= list@.len(),
            out@ == list@.take(i as int),
        decreases list@.len() - i,
    {
        out.push(list[i].clone());
        assert(out@ =~= list@.take(i + 1));
        i = i + 1;
    }
    assert(out@ =~= list@);
    out
}

/// The text without its first `count` characters.
pub fn skip_chars(s: &str, count: usize) -> (r: String)
    requires
        count <= s@.len(),
    ensures
        r@ == s@.skip(count as int),
{
    let chars = chars_of(s);
    let rest = part_of(&chars, count, chars.len());
    assert(rest@ =~= s@.skip(count as int));
    string_of(&rest)
}

/// The text without the given character at its front.
pub fn trim_start(s: &str, unwanted: char) -> (r: String)
    ensures
        r@ == trimmed_start(s@, |c: char| c == unwanted),
{
    let chars = chars_of(s);
    let ghost skip = |c: char| c == unwanted;
    let mut i: usize = 0;
    proof {
        assert(s@.skip(0) =~= s@);
    }
    while i < chars.len() && chars[i] == unwanted
        invariant
            i <= chars@.len(),
            chars@ == s@,
            skip == |c: char| c == unwanted,
            trimmed_start(s@, skip) == trimmed_start(s@.skip(i as int), skip),
        decreases chars@.len() - i,
    {
        proof {
            assert(s@.skip(i as int).drop_first() =~= s@.skip(i + 1));
        }
        i = i + 1;
    }
    skip_chars(s, i)
}

/// The text without the given characters at its front.
pub fn trim_start_either(s: &str, first: char, second: char) -> (r: String)
    ensures
        r@ == trimmed_start(s@, |c: char| c == first || c == second),
{
    let chars = chars_of(s);
    let ghost skip = |c: char| c == first || c == second;
    let mut i: usize = 0;
    proof {
        assert(s@.skip(0) =~= s@);
    }
    while i < chars.len() && (chars[i] == first || chars[i] == second)
        invariant
            i <= chars@.len(),
            chars@ == s@,
            skip == |c: char| c == first || c == second,
            trimmed_start(s@, skip) == trimmed_start(s@.skip(i as int), skip),
        decreases chars@.len() - i,
    {
        proof {
            assert(s@.skip(i as int).drop_first() =~= s@.skip(i + 1));
        }
        i = i + 1;
    }
    skip_chars(s, i)
}

/// The text without the given character at its end.
pub fn trim_end(s: &str, unwanted: char) -> (r: String)
    ensures
        r@ == trimmed_end(s@, |c: char| c == unwanted),
{
    let chars = chars_of(s);
    let ghost skip = |c: char| c == unwanted;
    let mut end: usize = chars.len();
    proof {
        assert(s@.take(end as int) =~= s@);
    }
    while end > 0 && chars[end - 1] == unwanted
        invariant
            end <= chars@.len(),
            chars@ == s@,
            skip == |c: char| c == unwanted,
            trimmed_end(s@, skip) == trimmed_end(s@.take(end as int), skip),
        decreases end,
    {
        proof {
            assert(s@.take(end as int).drop_last() =~= s@.take(end - 1));
        }
        end = end - 1;
    }
    let kept = part_of(&chars, 0, end);
    assert(kept@ =~= s@.take(end as int));
    string_of(&kept)
}

/// The ASCII letters and digits of a text, no more than `limit` of them.
pub fn take_alnum(s: &str, limit: usize) -> (r: String)
    ensures
        r@ == alnum_prefix(s@, limit as nat),
{
    let chars = chars_of(s);
    let mut out: Vec<char> = Vec::new();
    let mut i: usize = 0;
    proof {
        assert(s@.take(0) =~= Seq::<char>::empty());
    }
    while i < chars.len()
        invariant
            i <= chars@.len(),
            chars@ == s@,
            out@ == alnum_prefix(s@.take(i as int), limit as nat),
        decreases chars@.len() - i,
    {
        let c = chars[i];
        proof {
            assert(s@.take(i + 1).drop_last() =~= s@.take(i as int));
        }
        if (('a' <= c && c <= 'z') || ('A' <= c && c <= 'Z') || ('0' <= c && c <= '9')) && out.len()
            < limit {
            out.push(c);
        }
        i = i + 1;
    }
    proof {
        assert(s@.take(i as int) =~= s@);
    }
    string_of(&out)
}

/// What is cut off the front of a text are only characters that are to be skipped, all of them up
/// to the first that is not; the rest stays as it is.
pub proof fn law_trimming_cuts_the_front(s: Seq<char>, skip: spec_fn(char) -> bool) -> (cut: int)
    ensures
        0 <= cut <= s.len(),
        trimmed_start(s, skip) == s.skip(cut),
        forall|i: int| 0 <= i < cut ==> skip(#[trigger] s[i]),
        cut < s.len() ==> !skip(s[cut]),
    decreases s.len(),
{
    if s.len() > 0 && skip(s[0]) {
        let rest = s.drop_first();
        let cut = law_trimming_cuts_the_front(rest, skip);
        assert(rest.skip(cut) =~= s.skip(cut + 1));
        assert forall|i: int| 0 <= i < cut + 1 implies skip(#[trigger] s[i]) by {
            if i > 0 {
                assert(rest[i - 1] == s[i]);
            }
        }
        if cut < rest.len() {
            assert(rest[cut] == s[cut + 1]);
        }
        cut + 1
    } else {
        assert(s.skip(0) =~= s);
        0
    }
}

/// What is cut off the back of a text are only characters that are to be skipped, all of them from
/// behind the last that is not; the rest stays as it is.
pub proof fn law_trimming_cuts_the_back(s: Seq<char>, skip: spec_fn(char) -> bool) -> (kept: int)
    ensures
        0 <= kept <= s.len(),
        trimmed_end(s, skip) == s.take(kept),
        forall|i: int| kept <= i < s.len() ==> skip(#[trigger] s[i]),
        kept > 0 ==> !skip(s[kept - 1]),
    decreases s.len(),
{
    if s.len() > 0 && skip(s.last()) {
        let rest = s.drop_last();
        let kept = law_trimming_cuts_the_back(rest, skip);
        assert(rest.take(kept) =~= s.take(kept));
        assert forall|i: int| kept <= i < s.len() implies skip(#[trigger] s[i]) by {
            if i < rest.len() {
                assert(rest[i] == s[i]);
            }
        }
        if kept > 0 {
            assert(rest[kept - 1] == s[kept - 1]);
        }
        kept
    } else {
        assert(s.take(s.len() as int) =~= s);
        s.len() as int
    }
}

/// Replacing a character changes every place where it stands and no other.
pub proof fn law_only_one_character_is_replaced(s: Seq<char>, from: char, to: char, i: int)
    ensures
        replaced(s, from, to).len() == s.len(),
        0 <= i < s.len() && s[i] == from ==> replaced(s, from, to)[i] == to,
        0 <= i < s.len() && s[i] != from ==> replaced(s, from, to)[i] == s[i],
{
}

/// The case of a letter changes by a fixed distance, and nothing but letters of the other case
/// changes at all.
pub proof fn law_letters_change_their_case(c: char)
    ensures
        'A' <= c <= 'Z' ==> ascii_lower(c) as u32 == c as u32 + 32 && 'a' <= ascii_lower(c) <= 'z'
            && ascii_upper(c) == c,
        'a' <= c <= 'z' ==> ascii_upper(c) as u32 == c as u32 - 32 && 'A' <= ascii_upper(c) <= 'Z'
            && ascii_lower(c) == c,
        !('A' <= c <= 'Z') && !('a' <= c <= 'z') ==> ascii_lower(c) == c && ascii_upper(c) == c,
        is_ascii_alnum(c) <==> 'A' <= ascii_upper(c) <= 'Z' || '0' <= c <= '9',
{
}

/// Joining a list keeps every part, one after another, with the separator before each but the first.
pub proof fn law_joining_keeps_every_part(front: Seq<Seq<char>>, part: Seq<char>, sep: Seq<char>)
    ensures
        joined(Seq::empty(), sep) == Seq::<char>::empty(),
        joined(seq![part], sep) == part,
        front.len() > 0 ==> joined(front.push(part), sep) == joined(front, sep) + sep + part,
{
    assert(front.push(part).drop_last() =~= front);
}

/// Of a text only letters and digits are taken, and of one that holds nothing else the front is
/// taken as it is.
pub proof fn law_only_letters_and_digits_are_taken(s: Seq<char>, limit: nat)
    ensures
        forall|i: int|
            0 <= i < alnum_prefix(s, limit).len() ==> is_ascii_alnum(
                #[trigger] alnum_prefix(s, limit)[i],
            ),
        (forall|i: int| 0 <= i < s.len() ==> is_ascii_alnum(#[trigger] s[i])) ==> alnum_prefix(
            s,
            limit,
        ) == s.take(
            if s.len() < limit {
                s.len() as int
            } else {
                limit as int
            },
        ),
    decreases s.len(),
{
    if s.len() > 0 {
        let rest = s.drop_last();
        let before = alnum_prefix(rest, limit);
        law_only_letters_and_digits_are_taken(rest, limit);
        assert forall|i: int| 0 <= i < alnum_prefix(s, limit).len() implies is_ascii_alnum(
            #[trigger] alnum_prefix(s, limit)[i],
        ) by {
            if i < before.len() {
                assert(is_ascii_alnum(before[i]));
            }
        }
        if forall|i: int| 0 <= i < s.len() ==> is_ascii_alnum(#[trigger] s[i]) {
            assert(forall|i: int| 0 <= i < rest.len() ==> is_ascii_alnum(#[trigger] rest[i]));
            let taken = if s.len() < limit {
                s.len() as int
            } else {
                limit as int
            };
            assert(alnum_prefix(s, limit) =~= s.take(taken));
        }
    } else {
        assert(alnum_prefix(s, limit) =~= s.take(0));
    }
}

/// Texts are ordered by the first character in which they differ, and one that goes on behind the
/// end of another comes after it.
pub proof fn law_first_difference_decides(front: Seq<char>, a: Seq<char>, b: Seq<char>)
    ensures
        a.len() > 0 && b.len() > 0 && a[0] != b[0] ==> (text_lt(front + a, front + b) <==> a[0]
            < b[0]),
        b.len() > 0 ==> text_lt(front, front + b),
        !text_lt(front + b, front),
    decreases front.len(),
{
    if front.len() == 0 {
        assert(front + a =~= a);
        assert(front + b =~= b);
    } else {
        law_first_difference_decides(front.drop_first(), a, b);
        assert((front + a).drop_first() =~= front.drop_first() + a);
        assert((front + b).drop_first() =~= front.drop_first() + b);
    }
}

} // verus!
