//! Text primitives on Unicode scalar values.
//!
//! A string is modelled by its sequence of characters, `s@`.
use vstd::prelude::*;

verus! {

/// `c` has the Unicode property `White_Space`.
pub open spec fn char_is_whitespace(c: char) -> bool {
    ||| '\u{9}' <= c <= '\u{d}'
    ||| c == ' '
    ||| c == '\u{85}'
    ||| c == '\u{a0}'
    ||| c == '\u{1680}'
    ||| '\u{2000}' <= c <= '\u{200a}'
    ||| c == '\u{2028}'
    ||| c == '\u{2029}'
    ||| c == '\u{202f}'
    ||| c == '\u{205f}'
    ||| c == '\u{3000}'
}

/// Whether `c` has the Unicode property `White_Space`.
pub fn is_whitespace(c: char) -> (r: bool)
    ensures
        r == char_is_whitespace(c),
{
    ('\u{9}' <= c && c <= '\u{d}') || c == ' ' || c == '\u{85}' || c == '\u{a0}' || c
        == '\u{1680}' || ('\u{2000}' <= c && c <= '\u{200a}') || c == '\u{2028}' || c
        == '\u{2029}' || c == '\u{202f}' || c == '\u{205f}' || c == '\u{3000}'
}

/// `String::push` of the standard library: appends one character and leaves the
/// rest of the string as it was.
pub assume_specification[ String::push ](s: &mut String, ch: char)
    ensures
        final(s)@ == old(s)@.push(ch),
;

/// `s` begins with `prefix`.
pub open spec fn has_prefix(s: Seq<char>, prefix: Seq<char>) -> bool {
    prefix.len() <= s.len() && s.take(prefix.len() as int) == prefix
}

/// `needle` stands in `s` at the position `at`.
pub open spec fn occurs_at(s: Seq<char>, needle: Seq<char>, at: int) -> bool {
    0 <= at && at + needle.len() <= s.len() && s.subrange(at, at + needle.len()) == needle
}

/// `needle` stands somewhere in `s`.
pub open spec fn has_infix(s: Seq<char>, needle: Seq<char>) -> bool {
    exists|at: int| occurs_at(s, needle, at)
}

/// The pieces of `s` between the occurrences of `sep`, in order. There is one
/// piece more than there are separators, so an empty text has one empty piece.
pub open spec fn split_on(s: Seq<char>, sep: char) -> Seq<Seq<char>>
    decreases s.len(),
{
    if s.len() == 0 {
        seq![Seq::empty()]
    } else {
        let before = split_on(s.drop_last(), sep);
        if s.last() == sep {
            before.push(Seq::empty())
        } else {
            before.update(before.len() - 1, before.last().push(s.last()))
        }
    }
}

/// `s` with each occurrence of the character `from` replaced by the text `to`.
pub open spec fn replace_all(s: Seq<char>, from: char, to: Seq<char>) -> Seq<char>
    decreases s.len(),
{
    if s.len() == 0 {
        Seq::empty()
    } else if s.last() == from {
        replace_all(s.drop_last(), from, to) + to
    } else {
        replace_all(s.drop_last(), from, to).push(s.last())
    }
}

/// `t` is `s` without its leading and trailing whitespace.
pub open spec fn is_trimmed(s: Seq<char>, t: Seq<char>) -> bool {
    exists|from: int, to: int| trimmed_at(s, t, from, to)
}

/// `t` is what `s` holds from `from` up to `to`; what stands before and behind
/// is whitespace, and `t` neither begins nor ends with whitespace.
pub open spec fn trimmed_at(s: Seq<char>, t: Seq<char>, from: int, to: int) -> bool {
    &&& 0 <= from <= to <= s.len()
    &&& t == s.subrange(from, to)
    &&& forall|i: int| 0 <= i < from ==> char_is_whitespace(#[trigger] s[i])
    &&& forall|i: int| to <= i < s.len() ==> char_is_whitespace(#[trigger] s[i])
    &&& t.len() > 0 ==> !char_is_whitespace(t[0]) && !char_is_whitespace(t.last())
}

/// `s` without its leading and trailing whitespace.
pub open spec fn trimmed(s: Seq<char>) -> Seq<char> {
    choose|t: Seq<char>| is_trimmed(s, t)
}

/// A text has one trimmed form only.
proof fn lemma_trimmed_unique(s: Seq<char>, t: Seq<char>)
    requires
        is_trimmed(s, t),
    ensures
        trimmed(s) == t,
{
    let u = trimmed(s);
    let (f1, t1) = choose|from: int, to: int| trimmed_at(s, t, from, to);
    assert(is_trimmed(s, u));
    let (f2, t2) = choose|from: int, to: int| trimmed_at(s, u, from, to);
    if t.len() > 0 {
        assert(t[0] == s[f1] && t.last() == s[t1 - 1]);
    }
    if u.len() > 0 {
        assert(u[0] == s[f2] && u.last() == s[t2 - 1]);
    }
    assert(t =~= u);
}

/// The characters of `s`.
pub fn chars_of(s: &str) -> (r: Vec<char>)
    ensures
        r@ == s@,
{
    let mut r: Vec<char> = Vec::new();
    for c in it: s.chars()
        invariant
            r@ == s@.take(it.index() as int),
            it.seq() == s@,
    {
        r.push(c);
    }
    r
}

/// Whether two texts are equal.
pub fn same_text(a: &str, b: &str) -> (r: bool)
    ensures
        r == (a@ == b@),
{
    a.to_owned() == b.to_owned()
}

/// Whether `needle` stands in `s` at the position `at`.
fn matches_at(s: &Vec<char>, needle: &Vec<char>, at: usize) -> (r: bool)
    requires
        at + needle@.len() <= s@.len(),
    ensures
        r == occurs_at(s@, needle@, at as int),
{
    let size: usize = s.len();
    let mut i: usize = 0;
    while i < needle.len()
        invariant
            i <= needle@.len(),
            at + needle@.len() <= size == s@.len(),
            forall|k: int| 0 <= k < i ==> s@[at + k] == needle@[k],
        decreases needle@.len() - i,
    {
        if s[at + i] != needle[i] {
            assert(s@.subrange(at as int, at + needle@.len())[i as int] != needle@[i as int]);
            return false;
        }
        i = i + 1;
    }
    assert(s@.subrange(at as int, at + needle@.len()) =~= needle@);
    true
}

/// Whether `s` begins with `prefix`.
pub fn starts_with(s: &str, prefix: &str) -> (r: bool)
    ensures
        r == has_prefix(s@, prefix@),
{
    let text = chars_of(s);
    let start = chars_of(prefix);
    if start.len() > text.len() {
        return false;
    }
    assert(s@.take(prefix@.len() as int) =~= s@.subrange(0, prefix@.len() as int));
    matches_at(&text, &start, 0)
}

/// Whether `needle` stands somewhere in `s`.
pub fn contains(s: &str, needle: &str) -> (r: bool)
    ensures
        r == has_infix(s@, needle@),
{
    let text = chars_of(s);
    let part = chars_of(needle);
    if part.len() > text.len() {
        return false;
    }
    if part.len() == 0 {
        assert(s@.subrange(0, 0) =~= needle@);
        assert(occurs_at(s@, needle@, 0));
        return true;
    }
    let mut at: usize = 0;
    while part.len() <= text.len() - at
        invariant
            at <= text@.len(),
            0 < part@.len(),
            text@ == s@,
            part@ == needle@,
            forall|k: int| 0 <= k < at ==> !occurs_at(s@, needle@, k),
        decreases text@.len() - at,
    {
        if matches_at(&text, &part, at) {
            return true;
        }
        at = at + 1;
    }
    false
}

/// The pieces of `s` between the occurrences of `sep`.
pub fn split(s: &str, sep: char) -> (r: Vec<String>)
    ensures
        r.deep_view() == split_on(s@, sep),
{
    let text = chars_of(s);
    let mut done: Vec<String> = Vec::new();
    let mut piece = String::new();
    let mut i: usize = 0;
    assert(s@.take(0) =~= Seq::empty());
    assert(done.deep_view().push(piece@) =~= split_on(s@.take(0), sep));
    while i < text.len()
        invariant
            i <= text@.len(),
            text@ == s@,
            done.deep_view().push(piece@) == split_on(s@.take(i as int), sep),
        decreases text@.len() - i,
    {
        let c = text[i];
        let ghost before = done.deep_view().push(piece@);
        let ghost old_done = done.deep_view();
        proof {
            assert(s@.take(i + 1).drop_last() =~= s@.take(i as int));
            assert(s@.take(i + 1).last() == c);
        }
        if c == sep {
            done.push(piece);
            piece = String::new();
            assert(done.deep_view() =~= before);
        } else {
            piece.push(c);
            assert(old_done.push(piece@) =~= before.update(
                before.len() - 1,
                before.last().push(c),
            ));
        }
        i = i + 1;
    }
    assert(s@.take(s@.len() as int) =~= s@);
    let ghost whole = done.deep_view().push(piece@);
    done.push(piece);
    assert(done.deep_view() =~= whole);
    done
}

/// `s` with each occurrence of the character `from` replaced by the text `to`.
pub fn replace(s: &str, from: char, to: &str) -> (r: String)
    ensures
        r@ == replace_all(s@, from, to@),
{
    let text = chars_of(s);
    let mut out = String::new();
    let mut i: usize = 0;
    assert(s@.take(0) =~= Seq::empty());
    while i < text.len()
        invariant
            i <= text@.len(),
            text@ == s@,
            out@ == replace_all(s@.take(i as int), from, to@),
        decreases text@.len() - i,
    {
        let c = text[i];
        proof {
            assert(s@.take(i + 1).drop_last() =~= s@.take(i as int));
            assert(s@.take(i + 1).last() == c);
        }
        if c == from {
            out.append(to);
        } else {
            out.push(c);
        }
        i = i + 1;
    }
    assert(s@.take(s@.len() as int) =~= s@);
    out
}

/// `s` without its leading and trailing whitespace.
pub fn trim(s: &str) -> (r: &str)
    ensures
        r@ == trimmed(s@),
        is_trimmed(s@, r@),
{
    let text = chars_of(s);
    let mut from: usize = 0;
    while from < text.len() && is_whitespace(text[from])
        invariant
            from <= text@.len(),
            text@ == s@,
            forall|i: int| 0 <= i < from ==> char_is_whitespace(#[trigger] s@[i]),
        decreases text@.len() - from,
    {
        from = from + 1;
    }
    let mut to: usize = text.len();
    while to > from && is_whitespace(text[to - 1])
        invariant
            from <= to <= text@.len(),
            text@ == s@,
            forall|i: int| to <= i < text@.len() ==> char_is_whitespace(#[trigger] s@[i]),
        decreases to,
    {
        to = to - 1;
    }
    let r = s.substring_char(from, to);
    proof {
        assert(trimmed_at(s@, r@, from as int, to as int));
        lemma_trimmed_unique(s@, r@);
    }
    r
}

/// The separator joins the pieces of [`split_on`] back to the text, and stands
/// in none of them.
pub proof fn split_pieces_join_back(s: Seq<char>, sep: char)
    ensures
        join_with(split_on(s, sep), sep) == s,
        forall|i: int| 0 <= i < split_on(s, sep).len() ==> !#[trigger] split_on(s, sep)[i].contains(
            sep,
        ),
        split_on(s, sep).len() > 0,
    decreases s.len(),
{
    let pieces = split_on(s, sep);
    if s.len() == 0 {
        assert(pieces.drop_last() =~= Seq::empty());
        assert(join_with(pieces, sep) =~= s);
    } else {
        let init = s.drop_last();
        let before = split_on(init, sep);
        split_pieces_join_back(init, sep);
        assert(init.push(s.last()) =~= s);
        if s.last() == sep {
            assert(pieces.drop_last() =~= before);
            assert(join_with(pieces, sep) =~= s);
        } else {
            assert(pieces.drop_last() =~= before.drop_last());
            assert(join_with(pieces, sep) =~= join_with(before, sep).push(s.last()));
            let grown = pieces.last();
            assert(grown == before.last().push(s.last()));
            assert(!before[before.len() - 1].contains(sep));
            if grown.contains(sep) {
                let k = choose|k: int| 0 <= k < grown.len() && grown[k] == sep;
                assert(before.last()[k] == sep);
            }
        }
    }
}

/// The pieces in order, with `sep` between each two neighbours.
pub open spec fn join_with(pieces: Seq<Seq<char>>, sep: char) -> Seq<char>
    decreases pieces.len(),
{
    if pieces.len() == 0 {
        Seq::empty()
    } else if pieces.len() == 1 {
        pieces[0]
    } else {
        join_with(pieces.drop_last(), sep).push(sep) + pieces.last()
    }
}

/// A text begins with whatever is put before it, and a text that begins with a prefix is
/// that prefix and the rest.
pub proof fn prefixes_are_put_before(s: Seq<char>, prefix: Seq<char>)
    ensures
        has_prefix(prefix + s, prefix),
        has_prefix(s, prefix) <==> prefix.is_prefix_of(s),
        has_prefix(s, prefix) ==> s == prefix + s.skip(prefix.len() as int),
{
    assert((prefix + s).take(prefix.len() as int) =~= prefix);
    if has_prefix(s, prefix) {
        assert(s =~= s.take(prefix.len() as int) + s.skip(prefix.len() as int));
    }
    if prefix.is_prefix_of(s) {
        assert(s.take(prefix.len() as int) =~= prefix);
    }
}

/// A text holds whatever stands between two other texts in it, and a text that holds a
/// needle is what stands before it, the needle, and what stands behind it.
pub proof fn needles_stand_between(
    s: Seq<char>,
    before: Seq<char>,
    needle: Seq<char>,
    after: Seq<char>,
)
    ensures
        has_infix(before + needle + after, needle),
        has_infix(s, needle) ==> exists|x: Seq<char>, y: Seq<char>| s == #[trigger] (x + needle + y),
{
    let whole = before + needle + after;
    assert(whole.subrange(before.len() as int, (before.len() + needle.len()) as int) =~= needle);
    assert(occurs_at(whole, needle, before.len() as int));
    if has_infix(s, needle) {
        let at = choose|at: int| occurs_at(s, needle, at);
        let x = s.take(at);
        let y = s.skip(at + needle.len());
        assert(s =~= s.take(at) + s.subrange(at, at + needle.len()) + s.skip(at + needle.len()));
        assert(s == x + needle + y);
    }
}

/// A text without the separator is one piece, and splitting two texts with the separator
/// between them gives the pieces of the first and then those of the second.
pub proof fn splitting_goes_piece_by_piece(a: Seq<char>, b: Seq<char>, sep: char)
    ensures
        !a.contains(sep) ==> split_on(a, sep) == seq![a],
        split_on(a + seq![sep] + b, sep) == split_on(a, sep) + split_on(b, sep),
    decreases a.len() + b.len(),
{
    if !a.contains(sep) {
        if a.len() > 0 {
            let init = a.drop_last();
            assert(!init.contains(sep)) by {
                if init.contains(sep) {
                    let k = choose|k: int| 0 <= k < init.len() && init[k] == sep;
                    assert(a[k] == sep);
                }
            }
            splitting_goes_piece_by_piece(init, Seq::empty(), sep);
            assert(a.contains(a.last()));
            assert(init.push(a.last()) =~= a);
            assert(split_on(a, sep) =~= seq![a]);
        } else {
            assert(a =~= Seq::empty());
        }
    }
    let whole = a + seq![sep] + b;
    if b.len() == 0 {
        assert(whole.drop_last() =~= a);
        assert(whole.last() == sep);
        assert(split_on(whole, sep) =~= split_on(a, sep) + split_on(b, sep));
    } else {
        let init = b.drop_last();
        splitting_goes_piece_by_piece(a, init, sep);
        split_pieces_join_back(init, sep);
        assert(whole.drop_last() =~= a + seq![sep] + init);
        assert(whole.last() == b.last());
        assert(split_on(whole, sep) =~= split_on(a, sep) + split_on(b, sep));
    }
}

/// Replacing goes character by character: the one to be replaced becomes the new text,
/// any other stays, and what becomes of two texts in a row is what becomes of each.
pub proof fn replacing_goes_character_by_character(
    a: Seq<char>,
    b: Seq<char>,
    c: char,
    from: char,
    to: Seq<char>,
)
    ensures
        replace_all(Seq::empty(), from, to) == Seq::<char>::empty(),
        replace_all(seq![from], from, to) == to,
        c != from ==> replace_all(seq![c], from, to) == seq![c],
        replace_all(a + b, from, to) == replace_all(a, from, to) + replace_all(b, from, to),
    decreases b.len(),
{
    let empty_text: Seq<char> = Seq::empty();
    assert(seq![from].drop_last() =~= empty_text);
    assert(seq![c].drop_last() =~= empty_text);
    assert(replace_all(empty_text, from, to) == empty_text);
    assert(empty_text + to =~= to);
    assert(empty_text.push(c) =~= seq![c]);
    if b.len() == 0 {
        assert(a + b =~= a);
        assert(replace_all(a, from, to) + empty_text =~= replace_all(a, from, to));
    } else {
        replacing_goes_character_by_character(a, b.drop_last(), c, from, to);
        assert((a + b).drop_last() =~= a + b.drop_last());
        assert((a + b).last() == b.last());
        assert(replace_all(a + b, from, to) =~= replace_all(a, from, to) + replace_all(
            b,
            from,
            to,
        ));
    }
}

/// Trimming takes the whitespace off both ends and nothing else: of a text with
/// whitespace put around it the text is left, where it does not itself begin or end with
/// whitespace. What counts as whitespace are the characters that Unicode calls so.
pub proof fn trimming_undoes_padding(lead: Seq<char>, text: Seq<char>, tail: Seq<char>)
    requires
        forall|i: int| 0 <= i < lead.len() ==> is_space(#[trigger] lead[i]),
        forall|i: int| 0 <= i < tail.len() ==> is_space(#[trigger] tail[i]),
        text.len() > 0 ==> !is_space(text[0]) && !is_space(text[text.len() - 1]),
    ensures
        trimmed(lead + text + tail) == text,
{
    let whole = lead + text + tail;
    let from = lead.len() as int;
    let to = (lead.len() + text.len()) as int;
    assert forall|c: char| #[trigger] is_space(c) == char_is_whitespace(c) by {
        spaces_are_whitespace(c);
    }
    assert(whole.subrange(from, to) =~= text);
    assert forall|i: int| 0 <= i < from implies char_is_whitespace(#[trigger] whole[i]) by {
        assert(whole[i] == lead[i]);
        assert(is_space(lead[i]));
    }
    assert forall|i: int| to <= i < whole.len() implies char_is_whitespace(#[trigger] whole[i]) by {
        assert(whole[i] == tail[i - to]);
        assert(is_space(tail[i - to]));
    }
    if text.len() > 0 {
        assert(!is_space(text[0]) && !is_space(text.last()));
    }
    assert(trimmed_at(whole, text, from, to));
    assert(is_trimmed(whole, text));
    lemma_trimmed_unique(whole, text);
}

/// `c` is one of the characters of whitespace, by their code points.
pub open spec fn is_space(c: char) -> bool {
    seq![
        0x9int, 0xa, 0xb, 0xc, 0xd, 0x20, 0x85, 0xa0, 0x1680, 0x2000, 0x2001, 0x2002, 0x2003,
        0x2004, 0x2005, 0x2006, 0x2007, 0x2008, 0x2009, 0x200a, 0x2028, 0x2029, 0x202f, 0x205f,
        0x3000,
    ].contains(c as int)
}

/// These are the characters that are taken for whitespace.
pub proof fn spaces_are_whitespace(c: char)
    ensures
        is_space(c) == char_is_whitespace(c),
{
    let codes = seq![
        0x9int, 0xa, 0xb, 0xc, 0xd, 0x20, 0x85, 0xa0, 0x1680, 0x2000, 0x2001, 0x2002, 0x2003,
        0x2004, 0x2005, 0x2006, 0x2007, 0x2008, 0x2009, 0x200a, 0x2028, 0x2029, 0x202f, 0x205f,
        0x3000,
    ];
    let n = c as int;
    if char_is_whitespace(c) {
        let at: int = if n <= 0xd {
            n - 9
        } else if n == 0x20 {
            5
        } else if n == 0x85 {
            6
        } else if n == 0xa0 {
            7
        } else if n == 0x1680 {
            8
        } else if n <= 0x200a {
            n - 0x2000 + 9
        } else if n == 0x2028 {
            20
        } else if n == 0x2029 {
            21
        } else if n == 0x202f {
            22
        } else if n == 0x205f {
            23
        } else {
            24
        };
        assert(codes[at] == n);
    } else {
        assert forall|i: int| 0 <= i < codes.len() implies codes[i] != n by {
            assert(i < 25);
        }
    }
}

} // verus!
