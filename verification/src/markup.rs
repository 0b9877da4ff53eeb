//! Reading styles and elements back: the declarations of a style, and the attributes of an element.

use vstd::prelude::*;

use crate::text;

verus! {

/// The position of the first `c`; the length where there is none.
pub open spec fn first_index(s: Seq<char>, c: char) -> int
    decreases s.len(),
{
    if s.len() == 0 || s[0] == c {
        0
    } else {
        1 + first_index(s.skip(1), c)
    }
}

/// The declarations of a style, each with its property and its value: a declaration ends with a
/// semicolon, and its property with a colon.
pub open spec fn declarations(s: Seq<char>) -> Seq<(Seq<char>, Seq<char>)>
    decreases s.len(),
{
    let i = first_index(s, ';');
    if 0 <= i < s.len() {
        let part = s.take(i);
        let j = first_index(part, ':');
        let entry = if 0 <= j < part.len() {
            (part.take(j), part.skip(j + 1))
        } else {
            (part, Seq::empty())
        };
        seq![entry] + declarations(s.skip(i + 1))
    } else {
        Seq::empty()
    }
}

/// The attributes of an element, each with its name and its value: a value stands in quotes, and in
/// front of it the name, which ends with an equals sign and begins after a space.
pub open spec fn attributes(s: Seq<char>) -> Seq<(Seq<char>, Seq<char>)>
    decreases s.len(),
{
    let i = first_index(s, '"');
    let j = first_index(s.skip(i + 1), '"');
    if 0 <= i < s.len() && 0 <= j < s.skip(i + 1).len() {
        seq![(last_word(s.take(i)), s.skip(i + 1).take(j))] + attributes(s.skip(i + j + 2))
    } else {
        Seq::empty()
    }
}

/// The text behind the last space, without its last character.
pub open spec fn last_word(s: Seq<char>) -> Seq<char> {
    last_word_from(s, s.len() - 1)
}

/// The part of the text that ends before position `end` and begins behind the space before it.
pub open spec fn last_word_from(s: Seq<char>, end: int) -> Seq<char>
    decreases end,
{
    if end <= 0 || end > s.len() {
        Seq::empty()
    } else if s[end - 1] == ' ' {
        Seq::empty()
    } else {
        last_word_from(s, end - 1).push(s[end - 1])
    }
}

/// The values under a name, in their order.
pub open spec fn values(entries: Seq<(Seq<char>, Seq<char>)>, name: Seq<char>) -> Seq<Seq<char>>
    decreases entries.len(),
{
    if entries.len() == 0 {
        Seq::empty()
    } else {
        let rest = values(entries.drop_last(), name);
        if entries.last().0 == name {
            rest.push(entries.last().1)
        } else {
            rest
        }
    }
}

/// What a style declares of a property: all the values, in their order.
pub open spec fn declared(style: Seq<char>, property: Seq<char>) -> Seq<Seq<char>> {
    values(declarations(style), property)
}

/// What an element says under the name of an attribute: all the values, in their order.
pub open spec fn attribute(element: Seq<char>, name: Seq<char>) -> Seq<Seq<char>> {
    values(attributes(element), name)
}

/// Nothing, or declarations up to the end.
pub open spec fn is_closed(style: Seq<char>) -> bool {
    style.len() == 0 || style.last() == ';'
}

/// The first text is the second with a piece put in between two of its parts.
pub open spec fn put_between(
    longer: Seq<char>,
    shorter: Seq<char>,
    piece: Seq<char>,
    a: Seq<char>,
    b: Seq<char>,
) -> bool {
    longer == a + piece + b && shorter == a + b
}

/// The first text is the second with the piece put in somewhere.
pub open spec fn adds(longer: Seq<char>, shorter: Seq<char>, piece: Seq<char>) -> bool {
    exists|a: Seq<char>, b: Seq<char>| put_between(longer, shorter, piece, a, b)
}

/// The first list of words is the second with one more word behind another.
pub open spec fn adds_word(longer: Seq<char>, shorter: Seq<char>, word: Seq<char>) -> bool {
    exists|a: Seq<char>, b: Seq<char>|
        put_between(longer, shorter, " "@ + word, a, b) && a.len() > 0 && (b.len() == 0 || b[0]
            == ' ')
}

// ---------------------------------------------------------------------------
// How they are read
// ---------------------------------------------------------------------------

pub(crate) proof fn lemma_first_index(a: Seq<char>, c: char, b: Seq<char>)
    requires
        !a.contains(c),
    ensures
        first_index(a.push(c) + b, c) == a.len(),
    decreases a.len(),
{
    let s = a.push(c) + b;
    if a.len() > 0 {
        assert(a.contains(a[0]));
        let rest = a.skip(1);
        if rest.contains(c) {
            let i = choose|i: int| 0 <= i < rest.len() && rest[i] == c;
            assert(a[i + 1] == c);
        }
        lemma_first_index(rest, c, b);
        assert(s.skip(1) =~= rest.push(c) + b);
    }
}

pub(crate) proof fn lemma_no_index(s: Seq<char>, c: char)
    requires
        !s.contains(c),
    ensures
        first_index(s, c) == s.len(),
    decreases s.len(),
{
    if s.len() > 0 {
        assert(s.contains(s[0]));
        let rest = s.skip(1);
        if rest.contains(c) {
            let i = choose|i: int| 0 <= i < rest.len() && rest[i] == c;
            assert(s[i + 1] == c);
        }
        lemma_no_index(rest, c);
    }
}

pub(crate) proof fn lemma_first_index_range(s: Seq<char>, c: char)
    ensures
        0 <= first_index(s, c) <= s.len(),
        first_index(s, c) < s.len() ==> s[first_index(s, c)] == c,
        forall|k: int| 0 <= k < first_index(s, c) ==> s[k] != c,
    decreases s.len(),
{
    if s.len() > 0 && s[0] != c {
        let rest = s.skip(1);
        lemma_first_index_range(rest, c);
        assert forall|k: int| 0 <= k < first_index(s, c) implies s[k] != c by {
            if k > 0 {
                assert(rest[k - 1] == s[k]);
            }
        }
        if first_index(s, c) < s.len() {
            assert(rest[first_index(rest, c)] == s[first_index(s, c)]);
        }
    }
}

/// One declaration in front of others.
pub(crate) proof fn lemma_declaration(p: Seq<char>, v: Seq<char>)
    requires
        !p.contains(':'),
        !p.contains(';'),
        !v.contains(';'),
    ensures
        declarations(p + ":"@ + v + ";"@) == seq![(p, v)],
        is_closed(p + ":"@ + v + ";"@),
{
    reveal_strlit(":");
    reveal_strlit(";");
    let part = p.push(':') + v;
    let s = p + ":"@ + v + ";"@;
    let nothing = Seq::<char>::empty();
    assert(!part.contains(';')) by {
        if part.contains(';') {
            let i = choose|i: int| 0 <= i < part.len() && part[i] == ';';
            if i < p.len() {
                assert(p[i] == ';');
            } else if i > p.len() {
                assert(v[i - p.len() - 1] == ';');
            }
        }
    }
    assert(s =~= part.push(';') + nothing);
    lemma_first_index(part, ';', nothing);
    lemma_first_index(p, ':', v);
    assert(s.take(part.len() as int) =~= part);
    assert(part.take(p.len() as int) =~= p);
    assert(part.skip((p.len() + 1) as int) =~= v);
    assert(s.skip((part.len() + 1) as int) =~= nothing);
    assert(first_index(nothing, ';') == 0);
    assert(declarations(nothing) =~= Seq::empty());
    assert(seq![(p, v)] + Seq::<(Seq<char>, Seq<char>)>::empty() =~= seq![(p, v)]);
}

/// Declarations are read one after the other.
pub(crate) proof fn lemma_declarations_join(a: Seq<char>, b: Seq<char>)
    requires
        is_closed(a),
    ensures
        declarations(a + b) == declarations(a) + declarations(b),
        is_closed(b) ==> is_closed(a + b),
    decreases a.len(),
{
    if a.len() == 0 {
        assert(a + b =~= b);
        assert(first_index(a, ';') == 0);
        assert(declarations(a) =~= Seq::empty());
        assert(declarations(a) + declarations(b) =~= declarations(b));
    } else {
        let i = first_index(a, ';');
        lemma_first_index_range(a, ';');
        if i == a.len() {
            assert(a[a.len() - 1] == ';');
        }
        let front = a.take(i);
        let rest = a.skip(i + 1);
        assert(!front.contains(';'));
        assert(a =~= front.push(';') + rest);
        assert(a + b =~= front.push(';') + (rest + b));
        lemma_first_index(front, ';', rest + b);
        assert((a + b).take(i) =~= front);
        assert((a + b).skip(i + 1) =~= rest + b);
        if rest.len() > 0 {
            assert(rest.last() == a.last());
        }
        lemma_declarations_join(rest, b);
        let j = first_index(front, ':');
        let entry = if 0 <= j < front.len() {
            (front.take(j), front.skip(j + 1))
        } else {
            (front, Seq::empty())
        };
        assert(declarations(a) == seq![entry] + declarations(rest));
        assert(declarations(a + b) == seq![entry] + declarations(rest + b));
        assert(seq![entry] + (declarations(rest) + declarations(b)) =~= (seq![entry]
            + declarations(rest)) + declarations(b));
    }
}

pub(crate) proof fn lemma_values_join(
    x: Seq<(Seq<char>, Seq<char>)>,
    y: Seq<(Seq<char>, Seq<char>)>,
    name: Seq<char>,
)
    ensures
        values(x + y, name) == values(x, name) + values(y, name),
    decreases y.len(),
{
    if y.len() == 0 {
        assert(x + y =~= x);
        assert(values(x, name) + values(y, name) =~= values(x, name));
    } else {
        lemma_values_join(x, y.drop_last(), name);
        assert((x + y).drop_last() =~= x + y.drop_last());
        assert((x + y).last() == y.last());
        assert(values(x + y, name) =~= values(x, name) + values(y, name));
    }
}

pub(crate) proof fn lemma_values_one(p: Seq<char>, v: Seq<char>, name: Seq<char>)
    ensures
        values(seq![(p, v)], name) == if p == name {
            seq![v]
        } else {
            Seq::<Seq<char>>::empty()
        },
{
    let one = seq![(p, v)];
    assert(one.drop_last() =~= Seq::empty());
    assert(values(one.drop_last(), name) =~= Seq::empty());
    assert(one.last() == (p, v));
    assert(Seq::<Seq<char>>::empty().push(v) =~= seq![v]);
}

/// What two styles declare, one after the other.
pub(crate) proof fn lemma_declared_join(a: Seq<char>, b: Seq<char>, name: Seq<char>)
    requires
        is_closed(a),
    ensures
        declared(a + b, name) == declared(a, name) + declared(b, name),
        is_closed(b) ==> is_closed(a + b),
{
    lemma_declarations_join(a, b);
    lemma_values_join(declarations(a), declarations(b), name);
}

/// What one declaration declares.
pub(crate) proof fn lemma_declared_one(p: Seq<char>, v: Seq<char>, name: Seq<char>)
    requires
        !p.contains(':'),
        !p.contains(';'),
        !v.contains(';'),
    ensures
        declared(p + ":"@ + v + ";"@, name) == if p == name {
            seq![v]
        } else {
            Seq::<Seq<char>>::empty()
        },
        is_closed(p + ":"@ + v + ";"@),
{
    lemma_declaration(p, v);
    lemma_values_one(p, v, name);
}

pub(crate) proof fn lemma_declared_none(name: Seq<char>)
    ensures
        declared(Seq::empty(), name) == Seq::<Seq<char>>::empty(),
        is_closed(Seq::empty()),
{
    let nothing = Seq::<char>::empty();
    assert(first_index(nothing, ';') == 0);
    assert(declarations(nothing) =~= Seq::empty());
}

proof fn lemma_last_word_from(lead: Seq<char>, name: Seq<char>, tail: Seq<char>)
    requires
        !name.contains(' '),
        lead.len() == 0 || lead.last() == ' ',
    ensures
        last_word_from(lead + name + tail, (lead.len() + name.len()) as int) == name,
    decreases name.len(),
{
    let s = lead + name + tail;
    if name.len() == 0 {
        if lead.len() > 0 {
            assert(s[lead.len() - 1] == ' ');
        }
        assert(last_word_from(s, lead.len() as int) =~= name);
    } else {
        let init = name.drop_last();
        if init.contains(' ') {
            let i = choose|i: int| 0 <= i < init.len() && init[i] == ' ';
            assert(name[i] == ' ');
        }
        assert(name.contains(name.last()));
        assert(s =~= lead + init + (seq![name.last()] + tail));
        lemma_last_word_from(lead, init, seq![name.last()] + tail);
        assert(init.push(name.last()) =~= name);
    }
}

/// One attribute in front of what follows; the space in front of it may be part of a longer text.
pub(crate) proof fn lemma_attribute(lead: Seq<char>, name: Seq<char>, v: Seq<char>, rest: Seq<char>)
    requires
        !lead.contains('"'),
        lead.len() > 0,
        lead.last() == ' ',
        !name.contains('"'),
        !name.contains(' '),
        !v.contains('"'),
    ensures
        attributes(lead + name + "=\""@ + v + "\""@ + rest) == seq![(name, v)] + attributes(rest),
{
    reveal_strlit("=\"");
    reveal_strlit("\"");
    let front = (lead + name).push('=');
    let s = lead + name + "=\""@ + v + "\""@ + rest;
    assert(!front.contains('"')) by {
        if front.contains('"') {
            let i = choose|i: int| 0 <= i < front.len() && front[i] == '"';
            if i < lead.len() {
                assert(lead[i] == '"');
            } else if i < lead.len() + name.len() {
                assert(name[i - lead.len()] == '"');
            }
        }
    }
    let after = v.push('"') + rest;
    assert(s =~= front.push('"') + after);
    lemma_first_index(front, '"', after);
    lemma_first_index(v, '"', rest);
    let i = front.len() as int;
    assert(s.skip(i + 1) =~= after);
    assert(s.take(i) =~= front);
    assert(after.take(v.len() as int) =~= v);
    assert(s.skip(i + v.len() + 2) =~= rest);
    assert(front.last() == '=');
    assert(front[lead.len() - 1] == ' ');
    assert(front.contains(' '));
    assert(front =~= lead + name + seq!['=']);
    lemma_last_word_from(lead, name, seq!['=']);
}

/// A text without quotes in front changes nothing that comes after the first quote.
pub(crate) proof fn lemma_no_attributes(s: Seq<char>)
    requires
        !s.contains('"'),
    ensures
        attributes(s) == Seq::<(Seq<char>, Seq<char>)>::empty(),
{
    lemma_no_index(s, '"');
}

/// What is said under a name in an attribute and in what follows.
pub(crate) proof fn lemma_attribute_step(
    lead: Seq<char>,
    p: Seq<char>,
    v: Seq<char>,
    rest: Seq<char>,
    name: Seq<char>,
)
    requires
        !lead.contains('"'),
        lead.len() > 0,
        lead.last() == ' ',
        !p.contains('"'),
        !p.contains(' '),
        !v.contains('"'),
    ensures
        attribute(lead + p + "=\""@ + v + "\""@ + rest, name) == (if p == name {
            seq![v]
        } else {
            Seq::<Seq<char>>::empty()
        }) + attribute(rest, name),
{
    lemma_attribute(lead, p, v, rest);
    lemma_values_join(seq![(p, v)], attributes(rest), name);
    lemma_values_one(p, v, name);
}

/// Two attributes at the start of an element.
pub(crate) proof fn lemma_two_attributes(
    e: Seq<char>,
    tag: Seq<char>,
    p: Seq<char>,
    v: Seq<char>,
    q: Seq<char>,
    w: Seq<char>,
)
    requires
        ({
            let start = tag + p + "=\""@ + v + "\" "@ + q + "=\""@ + w + "\""@;
            start.len() <= e.len() && e.take(start.len() as int) == start
        }),
        !tag.contains('"') && tag.len() > 0 && tag.last() == ' ',
        !p.contains('"') && !p.contains(' '),
        !q.contains('"') && !q.contains(' '),
        !v.contains('"'),
        !w.contains('"'),
    ensures
        attributes(e).len() >= 2,
        attributes(e)[0] == (p, v),
        attributes(e)[1] == (q, w),
{
    reveal_strlit("=\"");
    reveal_strlit("\" ");
    reveal_strlit("\"");
    reveal_strlit(" ");
    let start = tag + p + "=\""@ + v + "\" "@ + q + "=\""@ + w + "\""@;
    let rest = e.skip(start.len() as int);
    let after = " "@ + q + "=\""@ + w + "\""@ + rest;
    assert(e =~= start + rest);
    assert(start + rest =~= tag + p + "=\""@ + v + "\""@ + after);
    lemma_attribute(tag, p, v, after);
    lemma_attribute(" "@, q, w, rest);
}

/// What the words from here on add, with a space in front of each.
spec fn words_after(ws: Seq<Seq<char>>) -> Seq<char> {
    if ws.len() == 0 {
        Seq::empty()
    } else {
        " "@ + text::joined(ws, " "@)
    }
}

proof fn lemma_words_after(l: Seq<Seq<char>>, r: Seq<Seq<char>>)
    requires
        l.len() > 0,
    ensures
        text::joined(l + r, " "@) == text::joined(l, " "@) + words_after(r),
    decreases r.len(),
{
    if r.len() == 0 {
        assert(l + r =~= l);
        assert(text::joined(l, " "@) + Seq::<char>::empty() =~= text::joined(l, " "@));
    } else {
        let init = r.drop_last();
        lemma_words_after(l, init);
        assert((l + r).drop_last() =~= l + init);
        assert((l + r).last() == r.last());
        let a = text::joined(l, " "@);
        if init.len() == 0 {
            assert(r[0] == r.last());
            assert(a + Seq::<char>::empty() + " "@ + r.last() =~= a + (" "@ + r.last()));
        } else {
            let b = text::joined(init, " "@);
            assert(a + (" "@ + b) + " "@ + r.last() =~= a + (" "@ + (b + " "@ + r.last())));
        }
    }
}

/// One more word in a list.
pub(crate) proof fn lemma_word_added(l: Seq<Seq<char>>, word: Seq<char>, r: Seq<Seq<char>>)
    requires
        l.len() > 0,
        l[0].len() > 0,
    ensures
        adds_word(
            text::joined(l + seq![word] + r, " "@),
            text::joined(l + r, " "@),
            word,
        ),
{
    reveal_strlit(" ");
    let a = text::joined(l, " "@);
    let b = words_after(r);
    lemma_words_after(l, r);
    lemma_words_after(l, seq![word]);
    lemma_words_after(l + seq![word], r);
    assert(text::joined(seq![word], " "@) == word);
    lemma_joined_not_empty(l);
    assert(a + (" "@ + word) + b =~= text::joined(l + seq![word] + r, " "@));
    assert(put_between(
        text::joined(l + seq![word] + r, " "@),
        text::joined(l + r, " "@),
        " "@ + word,
        a,
        b,
    ));
}

proof fn lemma_joined_not_empty(l: Seq<Seq<char>>)
    requires
        l.len() > 0,
        l[0].len() > 0,
    ensures
        text::joined(l, " "@).len() > 0,
    decreases l.len(),
{
    if l.len() > 1 {
        assert(l.drop_last()[0] == l[0]);
        lemma_joined_not_empty(l.drop_last());
    }
}

/// One more piece in a text.
pub(crate) proof fn lemma_piece_added(a: Seq<char>, piece: Seq<char>, b: Seq<char>)
    ensures
        adds(a + piece + b, a + b, piece),
{
    assert(put_between(a + piece + b, a + b, piece, a, b));
}

/// The first two words of a list.
pub(crate) proof fn lemma_two_words(a: Seq<char>, b: Seq<char>, rest: Seq<Seq<char>>)
    ensures
        (a + " "@ + b).is_prefix_of(text::joined(seq![a, b] + rest, " "@)),
{
    let l = seq![a, b];
    lemma_words_after(l, rest);
    assert(l.drop_last() =~= seq![a]);
    assert(text::joined(seq![a], " "@) == a);
    assert(text::joined(l, " "@) == a + " "@ + b);
    let s = text::joined(l + rest, " "@);
    assert(a + " "@ + b =~= s.subrange(0, (a + " "@ + b).len() as int));
}

/// The first three words of a list.
pub(crate) proof fn lemma_three_words(
    a: Seq<char>,
    b: Seq<char>,
    c: Seq<char>,
    rest: Seq<Seq<char>>,
)
    ensures
        (a + " "@ + b + " "@ + c).is_prefix_of(text::joined(seq![a, b, c] + rest, " "@)),
{
    let l = seq![a, b, c];
    lemma_words_after(l, rest);
    assert(l.drop_last() =~= seq![a, b]);
    assert(seq![a, b].drop_last() =~= seq![a]);
    assert(text::joined(seq![a], " "@) == a);
    assert(text::joined(seq![a, b], " "@) == a + " "@ + b);
    assert(text::joined(l, " "@) == a + " "@ + b + " "@ + c);
    let s = text::joined(l + rest, " "@);
    assert(a + " "@ + b + " "@ + c =~= s.subrange(0, (a + " "@ + b + " "@ + c).len() as int));
}

pub(crate) proof fn lemma_prefix_shorter(a: Seq<char>, b: Seq<char>, s: Seq<char>)
    requires
        (a + b).is_prefix_of(s),
    ensures
        a.is_prefix_of(s),
{
    assert((a + b) =~= s.subrange(0, (a + b).len() as int));
    assert(a =~= s.subrange(0, a.len() as int)) by {
        assert forall|i: int| 0 <= i < a.len() implies a[i] == s[i] by {
            assert((a + b)[i] == s.subrange(0, (a + b).len() as int)[i]);
        }
    }
}

/// The groups put behind each other.
pub(crate) open spec fn flat<T>(groups: Seq<Seq<T>>) -> Seq<T>
    decreases groups.len(),
{
    if groups.len() == 0 {
        Seq::empty()
    } else {
        flat(groups.drop_last()) + groups.last()
    }
}

/// Groups split in two.
pub(crate) proof fn lemma_flat_join<T>(a: Seq<Seq<T>>, b: Seq<Seq<T>>)
    ensures
        flat(a + b) == flat(a) + flat(b),
    decreases b.len(),
{
    if b.len() == 0 {
        assert(a + b =~= a);
        assert(flat(a) + Seq::<T>::empty() =~= flat(a));
    } else {
        lemma_flat_join(a, b.drop_last());
        assert((a + b).drop_last() =~= a + b.drop_last());
        assert(flat(a) + flat(b.drop_last()) + b.last() =~= flat(a) + (flat(b.drop_last())
            + b.last()));
    }
}

/// One group among the others, and the others without it.
pub(crate) proof fn lemma_flat_group<T>(groups: Seq<Seq<T>>, k: int)
    requires
        0 <= k < groups.len(),
    ensures
        flat(groups) == flat(groups.take(k)) + groups[k] + flat(groups.skip(k + 1)),
        flat(groups.update(k, Seq::empty())) == flat(groups.take(k)) + flat(groups.skip(k + 1)),
{
    lemma_flat_put(groups, k, groups[k]);
    assert(groups.update(k, groups[k]) =~= groups);
    lemma_flat_put(groups, k, Seq::empty());
    assert(flat(groups.take(k)) + Seq::<T>::empty() =~= flat(groups.take(k)));
}

proof fn lemma_flat_put<T>(groups: Seq<Seq<T>>, k: int, group: Seq<T>)
    requires
        0 <= k < groups.len(),
    ensures
        flat(groups.update(k, group)) == flat(groups.take(k)) + group + flat(groups.skip(k + 1)),
{
    let a = groups.take(k);
    let b = groups.skip(k + 1);
    assert(groups.update(k, group) =~= a + seq![group] + b);
    lemma_flat_join(a + seq![group], b);
    lemma_flat_join(a, seq![group]);
    lemma_flat_one(group);
}

pub(crate) proof fn lemma_flat_one<T>(group: Seq<T>)
    ensures
        flat(seq![group]) == group,
{
    let none = Seq::<Seq<T>>::empty();
    assert(seq![group].drop_last() =~= none);
    assert(flat(none) == Seq::<T>::empty());
    assert(flat(seq![group]) == flat(none) + seq![group].last());
    assert(Seq::<T>::empty() + group =~= group);
}

/// One more group at the end.
pub(crate) proof fn lemma_flat_push<T>(groups: Seq<Seq<T>>, group: Seq<T>)
    ensures
        flat(groups.push(group)) == flat(groups) + group,
{
    assert(groups.push(group).drop_last() =~= groups);
}

// ---------------------------------------------------------------------------
// Entities
// ---------------------------------------------------------------------------

/// The text that a text with entities stands for.
pub open spec fn decoded(t: Seq<char>) -> Seq<char>
    decreases t.len(),
{
    if t.len() == 0 {
        Seq::empty()
    } else if t.len() >= 5 && t.take(5) == seq!['&', 'a', 'm', 'p', ';'] {
        seq!['&'] + decoded(t.skip(5))
    } else if t.len() >= 4 && t.take(4) == seq!['&', 'l', 't', ';'] {
        seq!['<'] + decoded(t.skip(4))
    } else if t.len() >= 4 && t.take(4) == seq!['&', 'g', 't', ';'] {
        seq!['>'] + decoded(t.skip(4))
    } else if t.len() >= 6 && t.take(6) == seq!['&', 'q', 'u', 'o', 't', ';'] {
        seq!['"'] + decoded(t.skip(6))
    } else if t.len() >= 6 && t.take(6) == seq!['&', '#', 'x', '2', '7', ';'] {
        seq!['\''] + decoded(t.skip(6))
    } else {
        seq![t[0]] + decoded(t.skip(1))
    }
}

/// An entity in front of a text stands for its character.
pub(crate) proof fn lemma_entity(c: char, e: Seq<char>, rest: Seq<char>)
    requires
        match c {
            '&' => e == seq!['&', 'a', 'm', 'p', ';'],
            '<' => e == seq!['&', 'l', 't', ';'],
            '>' => e == seq!['&', 'g', 't', ';'],
            '"' => e == seq!['&', 'q', 'u', 'o', 't', ';'],
            '\'' => e == seq!['&', '#', 'x', '2', '7', ';'] || e == seq!['\''],
            _ => e == seq![c],
        },
    ensures
        decoded(e + rest) == seq![c] + decoded(rest),
{
    let t = e + rest;
    assert(t[0] == e[0]);
    assert(t.skip(e.len() as int) =~= rest);
    assert(t.take(e.len() as int) =~= e);
    if e.len() > 1 {
        assert(t[1] == e[1]);
        if t.len() >= 5 {
            assert(t.take(5)[1] == t[1] && t.take(5)[0] == t[0]);
        }
        assert(t.take(4)[1] == t[1] && t.take(4)[0] == t[0]);
        if t.len() >= 6 {
            assert(t.take(6)[1] == t[1] && t.take(6)[0] == t[0]);
        }
    } else {
        if t.len() >= 5 {
            assert(t.take(5)[0] == t[0]);
        }
        if t.len() >= 4 {
            assert(t.take(4)[0] == t[0]);
        }
        if t.len() >= 6 {
            assert(t.take(6)[0] == t[0]);
        }
    }
}

} // verus!
