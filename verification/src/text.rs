//! Texts as sequences of characters: searching, trimming and replacing.

use vstd::prelude::*;

verus! {

/// Whether `needle` stands at place `at` of `hay`.
pub open spec fn occurs_at(hay: Seq<char>, needle: Seq<char>, at: int) -> bool {
    0 <= at && at + needle.len() <= hay.len() && hay.subrange(at, at + needle.len()) == needle
}

/// Whether `needle` stands anywhere in `hay`.
pub open spec fn occurs(hay: Seq<char>, needle: Seq<char>) -> bool {
    exists|at: int| #[trigger] occurs_at(hay, needle, at)
}

/// The first place from `from` on where `needle` stands.
pub open spec fn place_of(hay: Seq<char>, needle: Seq<char>, from: int) -> Option<int>
    decreases hay.len() + 1 - from,
{
    if from > hay.len() {
        None
    } else if occurs_at(hay, needle, from) {
        Some(from)
    } else {
        place_of(hay, needle, from + 1)
    }
}

/// What [`place_of`] gives is the first place, and it misses none.
pub proof fn lemma_place_of(hay: Seq<char>, needle: Seq<char>, from: int)
    ensures
        match place_of(hay, needle, from) {
            Some(at) => from <= at && occurs_at(hay, needle, at) && forall|j: int|
                from <= j < at ==> !#[trigger] occurs_at(hay, needle, j),
            None => forall|j: int| from <= j ==> !#[trigger] occurs_at(hay, needle, j),
        },
    decreases hay.len() + 1 - from,
{
    if from <= hay.len() && !occurs_at(hay, needle, from) {
        lemma_place_of(hay, needle, from + 1);
    }
}

/// A place where `needle` stands, with none before it from `from` on, is what
/// [`place_of`] gives.
pub proof fn lemma_place_is(hay: Seq<char>, needle: Seq<char>, from: int, at: int)
    requires
        from <= at,
        occurs_at(hay, needle, at),
        forall|j: int| from <= j < at ==> !#[trigger] occurs_at(hay, needle, j),
    ensures
        place_of(hay, needle, from) == Some(at),
{
    lemma_place_of(hay, needle, from);
}

/// Whether a character is white space, as `char::is_whitespace` has it (the
/// Unicode property of that name).
pub uninterp spec fn white_space(c: char) -> bool;

/// `char::is_whitespace` depends on the character alone; what it gives goes by the
/// name [`white_space`].
pub assume_specification[ char::is_whitespace ](c: char) -> (b: bool)
    ensures
        b == white_space(c),
;

/// A text without the white space at its end.
pub open spec fn trimmed_end(text: Seq<char>) -> Seq<char>
    decreases text.len(),
{
    if text.len() > 0 && white_space(text.last()) {
        trimmed_end(text.drop_last())
    } else {
        text
    }
}

/// A text without the white space at its start.
pub open spec fn trimmed_start(text: Seq<char>) -> Seq<char>
    decreases text.len(),
{
    if text.len() > 0 && white_space(text[0]) {
        trimmed_start(text.skip(1))
    } else {
        text
    }
}

/// A text without the white space at both ends.
pub open spec fn trimmed(text: Seq<char>) -> Seq<char> {
    trimmed_end(trimmed_start(text))
}

/// The characters of a text.
pub fn chars_of(text: &str) -> (chars: Vec<char>)
    ensures
        chars@ == text@,
{
    let mut chars: Vec<char> = Vec::new();
    for c in it: text.chars()
        invariant
            it.seq() == text@,
            chars@ == text@.take(it.index() as int),
    {
        chars.push(c);
        assert(chars@ =~= text@.take(it.index() as int + 1));
    }
    assert(chars@ =~= text@);
    chars
}

/// The text of characters `from` to `to`.
pub fn string_of(chars: &Vec<char>, from: usize, to: usize) -> (text: String)
    requires
        from <= to <= chars@.len(),
    ensures
        text@ == chars@.subrange(from as int, to as int),
{
    let mut text = String::new();
    let mut i: usize = from;
    while i < to
        invariant
            from <= i <= to <= chars@.len(),
            text@ == chars@.subrange(from as int, i as int),
        decreases to - i,
    {
        text.push(chars[i]);
        assert(text@ =~= chars@.subrange(from as int, i + 1));
        i = i + 1;
    }
    text
}

/// Whether `needle` stands at place `at` of `hay`.
pub fn matches_at(hay: &Vec<char>, needle: &Vec<char>, at: usize) -> (found: bool)
    ensures
        found == occurs_at(hay@, needle@, at as int),
{
    if at > hay.len() || needle.len() > hay.len() - at {
        return false;
    }
    let mut i: usize = 0;
    while i < needle.len()
        invariant
            i <= needle@.len(),
            at + needle@.len() <= hay.len(),
            forall|j: int| 0 <= j < i ==> hay@[at + j] == needle@[j],
        decreases needle@.len() - i,
    {
        if hay[at + i] != needle[i] {
            proof {
                if occurs_at(hay@, needle@, at as int) {
                    assert(hay@.subrange(at as int, at + needle@.len())[i as int] == needle@[i as int]);
                }
            }
            return false;
        }
        i = i + 1;
    }
    assert(hay@.subrange(at as int, at + needle@.len()) =~= needle@);
    true
}

/// Appends a text.
pub fn put_text(out: &mut String, text: &str)
    ensures
        final(out)@ == old(out)@ + text@,
{
    let chars = chars_of(text);
    let mut i: usize = 0;
    assert(out@ =~= old(out)@ + chars@.take(0));
    while i < chars.len()
        invariant
            i <= chars@.len(),
            out@ == old(out)@ + chars@.take(i as int),
        decreases chars@.len() - i,
    {
        out.push(chars[i]);
        i = i + 1;
        assert(out@ =~= old(out)@ + chars@.take(i as int));
    }
    assert(chars@.take(i as int) =~= chars@);
}

/// Whether a text is empty.
pub fn is_empty_text(text: &str) -> (empty: bool)
    ensures
        empty == (text@.len() == 0),
{
    chars_of(text).len() == 0
}

/// Whether two texts are the same.
pub fn same_text(a: &str, b: &str) -> (same: bool)
    ensures
        same == (a@ == b@),
{
    let first = chars_of(a);
    let second = chars_of(b);
    let found = matches_at(&first, &second, 0);
    assert(first@.len() == second@.len() ==> first@.subrange(0, second@.len() as int) =~= first@);
    first.len() == second.len() && found
}

/// The first place from `from` on where `needle` stands.
pub fn find_from(hay: &Vec<char>, needle: &Vec<char>, from: usize) -> (place: Option<usize>)
    ensures
        match place {
            Some(at) => place_of(hay@, needle@, from as int) == Some(at as int),
            None => place_of(hay@, needle@, from as int) is None,
        },
{
    let mut at: usize = from;
    while at <= hay.len()
        invariant
            place_of(hay@, needle@, from as int) == place_of(hay@, needle@, at as int),
        decreases hay@.len() + 1 - at,
    {
        if matches_at(hay, needle, at) {
            return Some(at);
        }
        if at == hay.len() {
            assert(place_of(hay@, needle@, at + 1) is None);
            return None;
        }
        at = at + 1;
    }
    None
}

/// A text from `from` on, with every place where `needle` stands, from left to right,
/// taken by another text.
pub open spec fn replaced_from(hay: Seq<char>, needle: Seq<char>, with: Seq<char>, from: int) -> Seq<char>
    decreases hay.len() - from,
{
    match place_of(hay, needle, from) {
        Some(at) => if from <= at && needle.len() > 0 && at + needle.len() <= hay.len() {
            hay.subrange(from, at) + with + replaced_from(hay, needle, with, at + needle.len() as int)
        } else {
            hay.skip(from)
        },
        None => hay.skip(from),
    }
}

/// A text with every place where `needle` stands, from left to right, taken by another
/// text.
pub open spec fn replaced(hay: Seq<char>, needle: Seq<char>, with: Seq<char>) -> Seq<char> {
    replaced_from(hay, needle, with, 0)
}

fn put_chars(out: &mut String, chars: &Vec<char>, from: usize, to: usize)
    requires
        from <= to <= chars@.len(),
    ensures
        final(out)@ == old(out)@ + chars@.subrange(from as int, to as int),
{
    let mut i: usize = from;
    assert(out@ =~= old(out)@ + chars@.subrange(from as int, from as int));
    while i < to
        invariant
            from <= i <= to <= chars@.len(),
            out@ == old(out)@ + chars@.subrange(from as int, i as int),
        decreases to - i,
    {
        out.push(chars[i]);
        i = i + 1;
        assert(out@ =~= old(out)@ + chars@.subrange(from as int, i as int));
    }
}

/// Puts another text in every place where `needle` stands.
pub fn replace_text(text: &str, needle: &str, with: &str) -> (out: String)
    requires
        needle@.len() > 0,
    ensures
        out@ == replaced(text@, needle@, with@),
{
    let hay = chars_of(text);
    let wanted = chars_of(needle);
    let mut out = String::new();
    let mut from: usize = 0;
    assert(out@ + replaced_from(hay@, wanted@, with@, 0) =~= replaced(hay@, wanted@, with@));
    loop
        invariant
            from <= hay@.len(),
            wanted@.len() > 0,
            hay@ == text@,
            wanted@ == needle@,
            out@ + replaced_from(hay@, wanted@, with@, from as int) == replaced(text@, needle@, with@),
        decreases hay@.len() - from,
    {
        proof {
            lemma_place_of(hay@, wanted@, from as int);
        }
        match find_from(&hay, &wanted, from) {
            Some(at) => {
                let ghost before = out@;
                put_chars(&mut out, &hay, from, at);
                put_text(&mut out, with);
                let ghost rest = replaced_from(hay@, wanted@, with@, at + wanted@.len() as int);
                assert(out@ + rest =~= before + (hay@.subrange(from as int, at as int) + with@ + rest));
                assert(at + wanted@.len() <= hay.len());
                from = at + wanted.len();
            }
            None => {
                let ghost before = out@;
                put_chars(&mut out, &hay, from, hay.len());
                assert(out@ =~= before + hay@.skip(from as int));
                return out;
            }
        }
    }
}

/// Trims white space at both ends.
pub fn trim(text: &str) -> (out: String)
    ensures
        out@ == trimmed(text@),
{
    let chars = chars_of(text);
    let mut from: usize = 0;
    assert(chars@.skip(0) =~= chars@);
    while from < chars.len() && chars[from].is_whitespace()
        invariant
            from <= chars@.len(),
            trimmed_start(chars@.skip(from as int)) == trimmed_start(chars@),
        decreases chars@.len() - from,
    {
        assert(chars@.skip(from as int).skip(1) =~= chars@.skip(from + 1));
        from = from + 1;
    }
    let ghost inner = chars@.skip(from as int);
    let mut to: usize = chars.len();
    assert(chars@.subrange(from as int, to as int) =~= inner);
    while from < to && chars[to - 1].is_whitespace()
        invariant
            from <= to <= chars@.len(),
            trimmed_end(chars@.subrange(from as int, to as int)) == trimmed_end(inner),
        decreases to - from,
    {
        assert(chars@.subrange(from as int, to as int).drop_last() =~= chars@.subrange(from as int, to - 1));
        to = to - 1;
    }
    string_of(&chars, from, to)
}

/// A text stands in any text that has it between two others, at that place, and where it stands
/// its characters are those of the text.
pub proof fn law_text_is_found(before: Seq<char>, needle: Seq<char>, after: Seq<char>, hay: Seq<char>, at: int)
    ensures
        occurs(before + needle + after, needle),
        place_of(before + needle + after, needle, before.len() as int) == Some(before.len() as int),
        occurs_at(hay, needle, at) ==> hay == hay.take(at) + needle + hay.skip(at + needle.len()),
{
    let all = before + needle + after;
    let place = before.len() as int;
    assert(all.subrange(place, place + needle.len()) =~= needle);
    assert(occurs_at(all, needle, place));
    if occurs_at(hay, needle, at) {
        assert(hay =~= hay.take(at) + hay.subrange(at, at + needle.len()) + hay.skip(at + needle.len()));
    }
}

proof fn lemma_place_from(hay: Seq<char>, needle: Seq<char>, from: int, k: int)
    requires
        0 <= from <= hay.len(),
        0 <= k,
    ensures
        place_of(hay, needle, from + k) == (match place_of(hay.skip(from), needle, k) {
            Some(at) => Some(from + at),
            None => None,
        }),
    decreases hay.len() + 1 - from - k,
{
    let rest = hay.skip(from);
    if from + k <= hay.len() {
        if k + needle.len() <= rest.len() {
            assert(rest.subrange(k, k + needle.len()) =~= hay.subrange(from + k, from + k + needle.len()));
        }
        assert(occurs_at(rest, needle, k) == occurs_at(hay, needle, from + k));
        if !occurs_at(rest, needle, k) {
            lemma_place_from(hay, needle, from, k + 1);
        }
    }
}

proof fn lemma_replaced_from(hay: Seq<char>, needle: Seq<char>, with: Seq<char>, from: int, k: int)
    requires
        0 <= from,
        0 <= k,
        from + k <= hay.len(),
        needle.len() > 0,
    ensures
        replaced_from(hay, needle, with, from + k) == replaced_from(hay.skip(from), needle, with, k),
    decreases hay.len() - from - k,
{
    let rest = hay.skip(from);
    lemma_place_from(hay, needle, from, k);
    lemma_place_of(rest, needle, k);
    match place_of(rest, needle, k) {
        Some(at) => {
            assert(rest.subrange(k, at) =~= hay.subrange(from + k, from + at));
            lemma_replaced_from(hay, needle, with, from, at + needle.len() as int);
        },
        None => {
            assert(rest.skip(k) =~= hay.skip(from + k));
        },
    }
}

/// Replacing takes the first place where the text stands: what is before it stays, the other
/// text takes its place, and behind it the replacing goes on. A text that does not hold it
/// stays as it is.
pub proof fn law_replacing_goes_from_place_to_place(
    before: Seq<char>,
    needle: Seq<char>,
    after: Seq<char>,
    with: Seq<char>,
    hay: Seq<char>,
)
    requires
        needle.len() > 0,
        forall|j: int| 0 <= j < before.len() ==> !#[trigger] occurs_at(before + needle + after, needle, j),
    ensures
        replaced(before + needle + after, needle, with) == before + with + replaced(after, needle, with),
        !occurs(hay, needle) ==> replaced(hay, needle, with) == hay,
{
    let all = before + needle + after;
    let at = before.len() as int;
    law_text_is_found(before, needle, after, hay, 0);
    assert(all.subrange(at, at + needle.len()) =~= needle);
    lemma_place_is(all, needle, 0, at);
    assert(all.subrange(0, at) =~= before);
    assert(all.skip(at + needle.len()) =~= after);
    lemma_replaced_from(all, needle, with, at + needle.len() as int, 0);
    if !occurs(hay, needle) {
        lemma_place_of(hay, needle, 0);
        assert(hay.skip(0) =~= hay);
    }
}

proof fn lemma_trimmed_start(text: Seq<char>)
    ensures
        ({
            let n = text.len() - trimmed_start(text).len();
            &&& 0 <= n <= text.len()
            &&& trimmed_start(text) == text.skip(n)
            &&& forall|i: int| 0 <= i < n ==> white_space(#[trigger] text[i])
            &&& n < text.len() ==> !white_space(text[n])
        }),
    decreases text.len(),
{
    if text.len() > 0 && white_space(text[0]) {
        let rest = text.skip(1);
        lemma_trimmed_start(rest);
        let n = rest.len() - trimmed_start(rest).len();
        assert(rest.skip(n) =~= text.skip(n + 1));
        assert forall|i: int| 0 <= i < n + 1 implies white_space(#[trigger] text[i]) by {
            if i > 0 {
                assert(rest[i - 1] == text[i]);
            }
        }
    } else {
        assert(text.skip(0) =~= text);
    }
}

proof fn lemma_trimmed_end(text: Seq<char>)
    ensures
        ({
            let n = trimmed_end(text).len() as int;
            &&& n <= text.len()
            &&& trimmed_end(text) == text.take(n)
            &&& forall|i: int| n <= i < text.len() ==> white_space(#[trigger] text[i])
            &&& n > 0 ==> !white_space(text[n - 1])
        }),
    decreases text.len(),
{
    if text.len() > 0 && white_space(text.last()) {
        let front = text.drop_last();
        lemma_trimmed_end(front);
        let n = trimmed_end(front).len() as int;
        assert(front.take(n) =~= text.take(n));
        assert forall|i: int| n <= i < text.len() implies white_space(#[trigger] text[i]) by {
            if i < front.len() {
                assert(front[i] == text[i]);
            }
        }
    } else {
        assert(text.take(text.len() as int) =~= text);
    }
}

/// Trimming takes away white space at both ends, all of it and nothing else: a text that has no
/// white space at its ends is what is left of it with any white space around it.
pub proof fn law_trimming_takes_the_space_around(before: Seq<char>, text: Seq<char>, after: Seq<char>)
    requires
        forall|i: int| 0 <= i < before.len() ==> white_space(#[trigger] before[i]),
        forall|i: int| 0 <= i < after.len() ==> white_space(#[trigger] after[i]),
        text.len() > 0 ==> !white_space(text[0]) && !white_space(text.last()),
    ensures
        trimmed(before + text + after) == text,
{
    let all = before + text + after;
    lemma_trimmed_start(all);
    let start = trimmed_start(all);
    let n = all.len() - start.len();
    if text.len() > 0 {
        assert(all[before.len() as int] == text[0]);
        assert(n <= before.len());
        assert(n < before.len() ==> all[n] == before[n]);
        assert(n == before.len());
        assert(start =~= text + after);
        lemma_trimmed_end(start);
        let k = trimmed_end(start).len() as int;
        assert(start[text.len() - 1] == text.last());
        assert(k >= text.len());
        assert(k > text.len() ==> start[k - 1] == after[k - 1 - text.len()]);
        assert(start.take(k) =~= text);
    } else {
        assert(n < all.len() ==> all[n] == (before + after)[n]) by {
            assert(all =~= before + after);
        }
        assert(n == all.len());
        assert(start =~= Seq::<char>::empty());
        assert(trimmed_end(start) =~= text);
    }
}

} // verus!
