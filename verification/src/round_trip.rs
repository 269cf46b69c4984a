use crate::codec::{
    decode, decode_line, decode_lines, encode, flag, line_of, separator, ParseError, SEPARATOR,
};
use crate::item::Entry;
use crate::platform::{newline, Platform};
use crate::split::{
    free_of, lemma_no_early_match, lemma_split_free, lemma_split_head, occurs_at, split,
};
use crate::text::{
    decimal_digits, is_digit, lemma_decimal_digits, lemma_parse_decimal_digits, trim, trim_end,
    trim_start,
};
use vstd::prelude::*;

verus! {

/// Whether the file can hold the entry so that it is read back as it was: the
/// id fits 32 bits, and the name holds neither the separator nor the
/// newline.
pub open spec fn storable(e: Entry, nl: Seq<char>) -> bool {
    e.id <= u32::MAX && !e.name.contains(SEPARATOR) && free_of(e.name, nl)
}

/// The lines of the entries, in order.
pub open spec fn lines_of(s: Seq<Entry>) -> Seq<Seq<char>> {
    s.map_values(|e: Entry| line_of(e))
}

/// The text of a store that is not empty, without its last newline.
pub open spec fn joined(s: Seq<Entry>, nl: Seq<char>) -> Seq<char>
    recommends
        s.len() > 0,
{
    encode(s.drop_last(), nl) + line_of(s.last())
}

/// Whether a character is neither a carriage return nor a line feed.
pub open spec fn plain(c: char) -> bool {
    c != '\r' && c != '\n'
}

/// A character that does not stand in `a` does not stand, as a pattern, in
/// `a`, nor inside `a` when more text follows.
proof fn lemma_char_absent(a: Seq<char>, tail: Seq<char>, c: char)
    requires
        !a.contains(c),
    ensures
        free_of(a, seq![c]),
        forall|p: int| 0 <= p < a.len() ==> !occurs_at(a + tail, seq![c], p),
{
    let pat = seq![c];
    assert forall|p: int| !occurs_at(a, pat, p) by {
        if occurs_at(a, pat, p) {
            assert(a.subrange(p, p + 1)[0] == c);
            assert(a[p] == c);
        }
    }
    assert forall|p: int| 0 <= p < a.len() implies !occurs_at(a + tail, pat, p) by {
        if occurs_at(a + tail, pat, p) {
            assert((a + tail).subrange(p, p + 1)[0] == c);
            assert(a[p] == c);
        }
    }
}

/// The three fields of an entry's line are its id in decimal, its name and
/// its flag, where the name does not hold the separator.
pub proof fn lemma_fields(e: Entry)
    requires
        !e.name.contains(SEPARATOR),
    ensures
        split(line_of(e), separator()) == seq![decimal_digits(e.id), e.name, flag(e.completed)],
{
    let pat = separator();
    let d = decimal_digits(e.id);
    let f = flag(e.completed);
    let none = Seq::<char>::empty();
    lemma_decimal_digits(e.id);
    assert(!d.contains(SEPARATOR)) by {
        if d.contains(SEPARATOR) {
            let i = choose|i: int| 0 <= i < d.len() && d[i] == SEPARATOR;
            assert(is_digit(d[i]));
        }
    }
    assert(!f.contains(SEPARATOR));
    let tail2 = pat + f;
    let tail1 = pat + (e.name + tail2);
    assert(line_of(e) =~= d + tail1);
    lemma_char_absent(d, tail1, SEPARATOR);
    assert(tail1.subrange(0, 1) =~= pat);
    lemma_split_head(d, tail1, pat, none);
    assert(none + d =~= d);
    assert(tail1.skip(1) =~= e.name + tail2);
    lemma_char_absent(e.name, tail2, SEPARATOR);
    assert(tail2.subrange(0, 1) =~= pat);
    lemma_split_head(e.name, tail2, pat, none);
    assert(none + e.name =~= e.name);
    assert(tail2.skip(1) =~= f);
    lemma_char_absent(f, none, SEPARATOR);
    lemma_split_free(f, pat, none);
    assert(none + f =~= f);
    assert(seq![d] + (seq![e.name] + seq![f]) =~= seq![d, e.name, f]);
}

/// The line of an entry is read back as that entry.
pub proof fn lemma_decode_line(e: Entry)
    requires
        e.id <= u32::MAX,
        !e.name.contains(SEPARATOR),
    ensures
        decode_line(line_of(e)) == Ok::<Entry, ParseError>(e),
{
    lemma_fields(e);
    lemma_decimal_digits(e.id);
    lemma_parse_decimal_digits(e.id as u32);
    let d = decimal_digits(e.id);
    assert(is_digit(d[0]));
    assert(is_digit(d.last()));
    assert(trim_start(d) == d);
    assert(trim_end(d) == d);
    assert(trim(d) == d);
    assert(flag(true).len() != flag(false).len());
    let fields = split(line_of(e), separator());
    assert(fields[0] == d);
    assert(fields[1] == e.name);
    assert(fields[2] == flag(e.completed));
}

/// The newline of a platform does not occur in the line of an entry whose
/// name is free of it, and no such line ends with a carriage return.
pub proof fn lemma_line_free(e: Entry, platform: Platform)
    requires
        free_of(e.name, newline(platform)),
    ensures
        free_of(line_of(e), newline(platform)),
        line_of(e).len() > 0,
        plain(line_of(e).last()),
{
    let nl = newline(platform);
    let d = decimal_digits(e.id);
    let f = flag(e.completed);
    let a = d + separator();
    let b = separator() + f;
    let line = line_of(e);
    lemma_decimal_digits(e.id);
    assert(line =~= a + e.name + b);
    assert forall|i: int| 0 <= i < a.len() implies plain(#[trigger] a[i]) by {
        if i < d.len() {
            assert(is_digit(d[i]));
        }
    }
    assert forall|i: int| 0 <= i < b.len() implies plain(#[trigger] b[i]) by {}
    assert(line.last() == b.last());
    assert forall|p: int| !occurs_at(line, nl, p) by {
        if occurs_at(line, nl, p) {
            let found = line.subrange(p, p + nl.len());
            let q = p - a.len();
            let last = nl.len() - 1;
            assert(a.len() <= p < a.len() + e.name.len()) by {
                assert(found[0] == nl[0]);
                assert(!plain(nl[0]));
                assert(line[p] == nl[0]);
                if p < a.len() {
                    assert(line[p] == a[p]);
                } else if p >= a.len() + e.name.len() {
                    assert(line[p] == b[p - a.len() - e.name.len()]);
                }
            }
            assert(a.len() <= p + last < a.len() + e.name.len()) by {
                assert(found[last] == nl[last]);
                assert(!plain(nl[last]));
                assert(line[p + last] == nl[last]);
                if p + last < a.len() {
                    assert(line[p + last] == a[p + last]);
                } else if p + last >= a.len() + e.name.len() {
                    assert(line[p + last] == b[p + last - a.len() - e.name.len()]);
                }
            }
            assert(e.name.subrange(q, q + nl.len()) =~= found);
            assert(occurs_at(e.name, nl, q));
        }
    }
}

/// The text of a store that is not empty begins with the line of its first
/// entry and a newline; the text of the other entries follows.
pub proof fn lemma_encode_front(s: Seq<Entry>, nl: Seq<char>)
    requires
        s.len() > 0,
    ensures
        encode(s, nl) == line_of(s[0]) + nl + encode(s.skip(1), nl),
    decreases s.len(),
{
    if s.len() == 1 {
        assert(encode(s.drop_last(), nl) =~= Seq::<char>::empty());
        assert(encode(s.skip(1), nl) =~= Seq::<char>::empty());
        assert(encode(s, nl) =~= line_of(s[0]) + nl + encode(s.skip(1), nl));
    } else {
        let init = s.drop_last();
        let rest = s.skip(1);
        lemma_encode_front(init, nl);
        assert(init[0] == s[0]);
        assert(rest.drop_last() =~= init.skip(1));
        assert(rest.last() == s.last());
        assert(encode(s, nl) =~= line_of(s[0]) + nl + encode(rest, nl));
    }
}

/// The lines of a store, joined by newlines, are split into those lines again.
pub proof fn lemma_split_joined(s: Seq<Entry>, platform: Platform)
    requires
        s.len() > 0,
        forall|i: int| 0 <= i < s.len() ==> storable(#[trigger] s[i], newline(platform)),
    ensures
        split(joined(s, newline(platform)), newline(platform)) == lines_of(s),
    decreases s.len(),
{
    let nl = newline(platform);
    let first = line_of(s[0]);
    let none = Seq::<char>::empty();
    lemma_line_free(s[0], platform);
    if s.len() == 1 {
        assert(encode(s.drop_last(), nl) =~= none);
        assert(joined(s, nl) =~= first);
        lemma_split_free(first, nl, none);
        assert(none + first =~= first);
        assert(lines_of(s) =~= seq![first]);
    } else {
        let rest = s.skip(1);
        let init = s.drop_last();
        lemma_encode_front(init, nl);
        assert(init[0] == s[0]);
        assert(rest.drop_last() =~= init.skip(1));
        assert(rest.last() == s.last());
        let tail = nl + joined(rest, nl);
        assert(joined(s, nl) =~= first + tail);
        lemma_no_early_match(first, tail, nl);
        assert(tail.subrange(0, nl.len() as int) =~= nl);
        lemma_split_head(first, tail, nl, none);
        assert(none + first =~= first);
        assert(tail.skip(nl.len() as int) =~= joined(rest, nl));
        assert forall|i: int| 0 <= i < rest.len() implies storable(#[trigger] rest[i], nl) by {
            assert(rest[i] == s[i + 1]);
        }
        lemma_split_joined(rest, platform);
        assert(lines_of(s) =~= seq![first] + lines_of(rest));
    }
}

/// The lines of entries are read back as those entries.
pub proof fn lemma_decode_lines_of(s: Seq<Entry>)
    requires
        forall|i: int|
            0 <= i < s.len() ==> (#[trigger] s[i]).id <= u32::MAX && !s[i].name.contains(
                SEPARATOR,
            ),
    ensures
        decode_lines(lines_of(s)) == Ok::<Seq<Entry>, ParseError>(s),
    decreases s.len(),
{
    if s.len() == 0 {
        assert(s =~= Seq::<Entry>::empty());
    } else {
        let init = s.drop_last();
        assert(lines_of(s).drop_last() =~= lines_of(init));
        assert(lines_of(s).last() == line_of(s.last()));
        assert forall|i: int| 0 <= i < init.len() implies (#[trigger] init[i]).id <= u32::MAX
            && !init[i].name.contains(SEPARATOR) by {
            assert(init[i] == s[i]);
        }
        lemma_decode_lines_of(init);
        lemma_decode_line(s.last());
        assert(init.push(s.last()) =~= s);
    }
}

/// Writing a store and reading the text back gives the same entries, in the
/// same order, with their ids, names and flags, provided that no name holds
/// the separator or the platform's newline.
pub proof fn lemma_round_trip(s: Seq<Entry>, platform: Platform)
    requires
        forall|i: int| 0 <= i < s.len() ==> storable(#[trigger] s[i], newline(platform)),
    ensures
        decode(encode(s, newline(platform)), newline(platform)) == Ok::<Seq<Entry>, ParseError>(s),
{
    let nl = newline(platform);
    let text = encode(s, nl);
    if s.len() == 0 {
        assert(s =~= Seq::<Entry>::empty());
    } else {
        assert(text == joined(s, nl) + nl);
        assert(text.subrange(text.len() - nl.len(), text.len() as int) =~= nl);
        assert(text.take(text.len() - nl.len()) =~= joined(s, nl));
        lemma_split_joined(s, platform);
        lemma_decode_lines_of(s);
    }
}

} // verus!
