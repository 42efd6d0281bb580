//! What holds of the operations on texts, whatever the texts are.
use vstd::prelude::*;
use vstd::utf8::{decode_utf8_encode_utf8, encode_utf8, encode_utf8_valid_utf8, valid_utf8_split};
use crate::text::{
    ascii_lowered, bytes_le, cuts, decimal, first_bytes, first_chars, joined, occurs, occurs_at,
    text_le, trimmed, white, with_item, word_len, words,
};

verus! {

/// Whether all characters of `s` are white space.
pub open spec fn blank(s: Seq<char>) -> bool {
    forall|i: int| 0 <= i < s.len() ==> white(#[trigger] s[i])
}

/// Trimming takes away the white space at both ends, all of it and nothing else.
pub proof fn trimming_takes_the_ends(a: Seq<char>, t: Seq<char>, b: Seq<char>)
    requires
        blank(a),
        blank(b),
        t.len() > 0,
        !white(t.first()),
        !white(t.last()),
    ensures
        trimmed(a + t + b) == t,
    decreases a.len() + b.len(),
{
    let s = a + t + b;
    if a.len() > 0 {
        assert(s.first() == a[0]);
        assert(s.drop_first() == a.drop_first() + t + b);
        assert(blank(a.drop_first()));
        trimming_takes_the_ends(a.drop_first(), t, b);
    } else if b.len() > 0 {
        assert(s.first() == t.first());
        assert(s.last() == b[b.len() - 1]);
        assert(s.drop_last() == a + t + b.drop_last());
        assert(blank(b.drop_last()));
        trimming_takes_the_ends(a, t, b.drop_last());
    } else {
        assert(s == t);
    }
}

/// Nothing is left of a text of white space alone.
pub proof fn trimming_leaves_nothing_blank(s: Seq<char>)
    requires
        blank(s),
    ensures
        trimmed(s).len() == 0,
    decreases s.len(),
{
    if s.len() > 0 {
        assert(blank(s.drop_first()));
        trimming_leaves_nothing_blank(s.drop_first());
    }
}

proof fn lemma_word_len_of_both(a: Seq<char>, c: char, b: Seq<char>)
    requires
        white(c),
    ensures
        word_len(a + seq![c] + b) == word_len(a),
    decreases a.len(),
{
    let s = a + seq![c] + b;
    if a.len() == 0 {
        assert(s.first() == c);
    } else {
        assert(s.first() == a.first());
        assert(s.drop_first() == a.drop_first() + seq![c] + b);
        lemma_word_len_of_both(a.drop_first(), c, b);
    }
}

/// White space parts words: the words on its left come first, then those on its right.
pub proof fn words_part_at_white_space(a: Seq<char>, c: char, b: Seq<char>)
    requires
        white(c),
    ensures
        words(a + seq![c] + b) == words(a) + words(b),
    decreases a.len(),
{
    let s = a + seq![c] + b;
    if a.len() == 0 {
        assert(s.drop_first() == b);
        assert(words(a) + words(b) == words(b));
    } else if white(a.first()) {
        assert(s.first() == a.first());
        assert(s.drop_first() == a.drop_first() + seq![c] + b);
        words_part_at_white_space(a.drop_first(), c, b);
    } else {
        crate::text::lemma_word_len(a);
        lemma_word_len_of_both(a, c, b);
        let n = word_len(a) as int;
        assert(s.first() == a.first());
        assert(s.take(n) == a.take(n));
        assert(s.skip(n) == a.skip(n) + seq![c] + b);
        words_part_at_white_space(a.skip(n), c, b);
        assert(words(s) == seq![a.take(n)] + (words(a.skip(n)) + words(b)));
        assert(words(a) + words(b) == seq![a.take(n)] + (words(a.skip(n)) + words(b)));
    }
}

/// A text without white space is one word, and an empty one is none.
pub proof fn a_text_without_white_space_is_one_word(s: Seq<char>)
    requires
        forall|i: int| 0 <= i < s.len() ==> !white(#[trigger] s[i]),
    ensures
        s.len() > 0 ==> words(s) == seq![s],
        s.len() == 0 ==> words(s).len() == 0,
{
    lemma_whole_word(s);
    if s.len() > 0 {
        assert(!white(s[0]));
        assert(s.take(s.len() as int) == s);
        assert(s.skip(s.len() as int).len() == 0);
        assert(words(s.skip(s.len() as int)).len() == 0);
        assert(words(s) == seq![s]);
    }
}

proof fn lemma_whole_word(s: Seq<char>)
    requires
        forall|i: int| 0 <= i < s.len() ==> !white(#[trigger] s[i]),
    ensures
        word_len(s) == s.len(),
    decreases s.len(),
{
    if s.len() > 0 {
        assert(!white(s[0]));
        assert forall|i: int| 0 <= i < s.drop_first().len() implies !white(
            #[trigger] s.drop_first()[i],
        ) by {
            assert(s.drop_first()[i] == s[i + 1]);
        }
        lemma_whole_word(s.drop_first());
    }
}

/// A part occurs wherever it was put, and what occurs can be cut out.
pub proof fn parts_occur_where_they_stand(a: Seq<char>, part: Seq<char>, b: Seq<char>)
    ensures
        occurs(a + part + b, part),
{
    let s = a + part + b;
    assert(s.subrange(a.len() as int, (a.len() + part.len()) as int) == part);
    assert(occurs_at(s, part, a.len() as int));
}

/// What occurs in a text stands between two pieces of it.
pub proof fn what_occurs_can_be_cut_out(s: Seq<char>, part: Seq<char>)
    requires
        occurs(s, part),
    ensures
        exists|a: Seq<char>, b: Seq<char>| s == #[trigger] (a + part + b),
{
    let i = choose|i: int| #[trigger] occurs_at(s, part, i);
    let a = s.take(i);
    let b = s.skip(i + part.len());
    assert(s == a + part + b) by {
        assert forall|k: int| 0 <= k < s.len() implies s[k] == (a + part + b)[k] by {
            if i <= k < i + part.len() {
                assert(s.subrange(i, i + part.len())[k - i] == s[k]);
            }
        }
    }
}

/// What occurs in a part of a text occurs in the text.
pub proof fn parts_of_parts_occur(s: Seq<char>, part: Seq<char>, inner: Seq<char>)
    requires
        occurs(s, part),
        occurs(part, inner),
    ensures
        occurs(s, inner),
{
    let i = choose|i: int| #[trigger] occurs_at(s, part, i);
    let j = choose|j: int| #[trigger] occurs_at(part, inner, j);
    assert forall|k: int| 0 <= k < inner.len() implies s[i + j + k] == inner[k] by {
        assert(part.subrange(j, j + inner.len())[k] == part[j + k]);
        assert(s.subrange(i, i + part.len())[j + k] == s[i + j + k]);
    }
    assert(s.subrange(i + j, i + j + inner.len()) == inner);
    assert(occurs_at(s, inner, i + j));
}

/// What occurs in a text still occurs when something is put before or behind the text.
pub proof fn what_occurs_stays(s: Seq<char>, more: Seq<char>, part: Seq<char>)
    requires
        occurs(s, part),
    ensures
        occurs(s + more, part),
        occurs(more + s, part),
{
    let none = Seq::<char>::empty();
    parts_occur_where_they_stand(none, s, more);
    assert(none + s + more == s + more);
    parts_of_parts_occur(s + more, s, part);
    parts_occur_where_they_stand(more, s, none);
    assert(more + s + none == more + s);
    parts_of_parts_occur(more + s, s, part);
}

/// Joining two lists puts the separator once between what each of them gives; a list of one is
/// its text, and an empty list an empty text.
pub proof fn joining_goes_list_by_list(a: Seq<Seq<char>>, b: Seq<Seq<char>>, sep: Seq<char>)
    ensures
        a.len() == 0 ==> joined(a, sep).len() == 0,
        a.len() == 1 ==> joined(a, sep) == a[0],
        a.len() > 0 && b.len() > 0 ==> joined(a + b, sep) == joined(a, sep) + sep + joined(b, sep),
    decreases b.len(),
{
    if a.len() > 0 && b.len() > 0 {
        let all = a + b;
        assert(all.last() == b.last());
        assert(all.drop_last() == a + b.drop_last());
        if b.len() == 1 {
            assert(a + b.drop_last() == a);
        } else {
            joining_goes_list_by_list(a, b.drop_last(), sep);
            assert(joined(all, sep) == joined(a, sep) + sep + joined(b.drop_last(), sep) + sep
                + b.last());
            assert(joined(a, sep) + sep + joined(b, sep) == joined(a, sep) + sep + joined(
                b.drop_last(),
                sep,
            ) + sep + b.last());
        }
    }
}

/// Every part of a list occurs in what joining the list gives.
pub proof fn joined_parts_occur(parts: Seq<Seq<char>>, sep: Seq<char>, i: int)
    requires
        0 <= i < parts.len(),
    ensures
        occurs(joined(parts, sep), parts[i]),
{
    let front = parts.take(i);
    let one = seq![parts[i]];
    let back = parts.skip(i + 1);
    let none = Seq::<char>::empty();
    assert(parts == front + one + back);
    joining_goes_list_by_list(one, back, sep);
    joining_goes_list_by_list(front, one + back, sep);
    assert(front + (one + back) == parts);
    let a = if front.len() == 0 {
        none
    } else {
        joined(front, sep) + sep
    };
    let b = if back.len() == 0 {
        none
    } else {
        sep + joined(back, sep)
    };
    if back.len() == 0 {
        assert(one + back == one);
    }
    if front.len() == 0 {
        assert(one + back == parts);
    }
    assert(joined(parts, sep) == a + parts[i] + b);
    parts_occur_where_they_stand(a, parts[i], b);
}

/// The digits of a number are those of its tenth part, and behind them the one that is left over.
pub proof fn digits_stand_for_tens(n: nat, d: nat)
    requires
        d < 10,
    ensures
        decimal(d).len() == 1,
        decimal(d)[0] as int == '0' as int + d,
        n > 0 ==> decimal(10 * n + d) == decimal(n) + decimal(d),
{
    assert((10 * n + d) / 10 == n && (10 * n + d) % 10 == d);
    if n > 0 {
        assert(decimal(10 * n + d) == decimal(n) + decimal(d));
    }
}

/// Texts are ordered by the bytes that encode them: by the first byte that differs, and where none
/// does, the shorter comes first.
pub proof fn the_first_difference_decides(
    p: Seq<u8>,
    x: u8,
    a: Seq<u8>,
    y: u8,
    b: Seq<u8>,
    s: Seq<char>,
    t: Seq<char>,
)
    ensures
        x != y ==> (bytes_le(p + seq![x] + a, p + seq![y] + b) <==> x < y),
        bytes_le(p, p + a),
        a.len() > 0 ==> !bytes_le(p + a, p),
        text_le(s, t) <==> bytes_le(encode_utf8(s), encode_utf8(t)),
    decreases p.len(),
{
    let u = p + seq![x] + a;
    let v = p + seq![y] + b;
    if p.len() == 0 {
        assert(u.first() == x && v.first() == y);
    } else {
        let q = p.drop_first();
        the_first_difference_decides(q, x, a, y, b, s, t);
        assert(u.drop_first() == q + seq![x] + a);
        assert(v.drop_first() == q + seq![y] + b);
        assert((p + a).drop_first() == q + a);
        assert(u.first() == p[0] && v.first() == p[0] && (p + a).first() == p[0]);
    }
}

/// Two texts count as the same but for ASCII case exactly where they are equally long and each two
/// characters are the same, or a letter `A` to `Z` and the one thirty-two behind it.
pub proof fn ascii_case_is_all_that_is_ignored(s: Seq<char>, t: Seq<char>)
    ensures
        ascii_lowered(s) == ascii_lowered(t) <==> s.len() == t.len() && forall|i: int|
            #![trigger s[i]]
            #![trigger t[i]]
            0 <= i < s.len() ==> {
                ||| s[i] == t[i]
                ||| ('A' <= s[i] <= 'Z' && t[i] as int == s[i] as int + 32)
                ||| ('A' <= t[i] <= 'Z' && s[i] as int == t[i] as int + 32)
            },
{
    let x = ascii_lowered(s);
    let y = ascii_lowered(t);
    if x == y {
        assert(x.len() == s.len() && y.len() == t.len());
        assert forall|i: int| #![trigger s[i]] #![trigger t[i]] 0 <= i < s.len() implies {
            ||| s[i] == t[i]
            ||| ('A' <= s[i] <= 'Z' && t[i] as int == s[i] as int + 32)
            ||| ('A' <= t[i] <= 'Z' && s[i] as int == t[i] as int + 32)
        } by {
            assert(x[i] == y[i]);
        }
    }
    if s.len() == t.len() && forall|i: int|
        #![trigger s[i]]
        #![trigger t[i]]
        0 <= i < s.len() ==> {
            ||| s[i] == t[i]
            ||| ('A' <= s[i] <= 'Z' && t[i] as int == s[i] as int + 32)
            ||| ('A' <= t[i] <= 'Z' && s[i] as int == t[i] as int + 32)
        } {
        assert forall|i: int| 0 <= i < x.len() implies x[i] == y[i] by {
            let c = s[i];
            let d = t[i];
        }
        assert(x == y);
    }
}

/// Shortening keeps the beginning: as many characters as asked for, or all there are.
pub proof fn shortening_keeps_the_beginning(s: Seq<char>, n: nat)
    ensures
        first_chars(s, n).is_prefix_of(s),
        first_chars(s, n).len() == if s.len() < n {
            s.len()
        } else {
            n
        },
{
}

/// Cutting keeps the beginning too: as many bytes as asked for, or all there are.
pub proof fn cutting_keeps_the_beginning(s: Seq<char>, n: nat)
    requires
        cuts(s, n),
    ensures
        encode_utf8(first_bytes(s, n)).is_prefix_of(encode_utf8(s)),
        encode_utf8(first_bytes(s, n)).len() == if encode_utf8(s).len() < n {
            encode_utf8(s).len()
        } else {
            n
        },
{
    let bytes = encode_utf8(s);
    let end = if n < bytes.len() {
        n as int
    } else {
        bytes.len() as int
    };
    encode_utf8_valid_utf8(s);
    valid_utf8_split(bytes, end);
    assert(bytes.take(end) == bytes.subrange(0, end));
    decode_utf8_encode_utf8(bytes.take(end));
}

/// Adding an item keeps what is there in its place.
pub proof fn adding_keeps_the_places(list: Seq<Seq<char>>, item: Seq<char>)
    ensures
        list.is_prefix_of(with_item(list, item)),
        with_item(list, item).contains(item),
        with_item(list, item).len() <= list.len() + 1,
        list.contains(item) ==> with_item(list, item) == list,
{
    if !list.contains(item) {
        assert(list.push(item)[list.len() as int] == item);
    }
}

} // verus!
