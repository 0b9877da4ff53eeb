//! Text as sequences of characters: the operations that the other modules share.

use vstd::prelude::*;
use vstd::string::*;

verus! {

// ---------------------------------------------------------------------------
// Standard library calls
// ---------------------------------------------------------------------------

/// Appending one character to a `String` (`String::push`) puts it at the end.
pub assume_specification[ std::string::String::push ](s: &mut std::string::String, c: char)
    ensures
        final(s)@ == old(s)@.push(c),
;

/// Two string slices are equal (`str::eq`) where they hold the same characters.
pub assume_specification[ <str as PartialEq>::eq ](a: &str, b: &str) -> (r: bool)
    ensures
        r == (a@ == b@),
;

/// What `str::to_lowercase` gives for a text that is not all ASCII.
pub uninterp spec fn unicode_lowercase(s: Seq<char>) -> Seq<char>;

/// Calls `str::to_lowercase`: on ASCII text the result is the ASCII lower case, and on other text
/// it follows from the characters alone.
#[verifier::external_body]
pub(crate) fn to_lowercase(s: &str) -> (r: String)
    ensures
        r@ == (if is_ascii_text(s@) {
            ascii_lower(s@)
        } else {
            unicode_lowercase(s@)
        }),
{
    s.to_lowercase()
}

// ---------------------------------------------------------------------------
// What the operations mean
// ---------------------------------------------------------------------------

/// The characters with Unicode's `White_Space` property.
pub open spec fn is_white(c: char) -> bool {
    ||| 0x09 <= c as u32 <= 0x0d
    ||| c as u32 == 0x20
    ||| c as u32 == 0x85
    ||| c as u32 == 0xa0
    ||| c as u32 == 0x1680
    ||| 0x2000 <= c as u32 <= 0x200a
    ||| c as u32 == 0x2028
    ||| c as u32 == 0x2029
    ||| c as u32 == 0x202f
    ||| c as u32 == 0x205f
    ||| c as u32 == 0x3000
}

/// Every character is ASCII.
pub open spec fn is_ascii_text(s: Seq<char>) -> bool {
    forall|i: int| 0 <= i < s.len() ==> (#[trigger] s[i] as u32) < 128
}

/// The lower case of a text.
pub open spec fn lowercase(s: Seq<char>) -> Seq<char> {
    if is_ascii_text(s) {
        ascii_lower(s)
    } else {
        unicode_lowercase(s)
    }
}

/// `s` without the white space at its front.
pub open spec fn trimmed_start(s: Seq<char>) -> Seq<char>
    decreases s.len(),
{
    if s.len() > 0 && is_white(s[0]) {
        trimmed_start(s.skip(1))
    } else {
        s
    }
}

/// `s` without the white space at its end.
pub open spec fn trimmed_end(s: Seq<char>) -> Seq<char>
    decreases s.len(),
{
    if s.len() > 0 && is_white(s.last()) {
        trimmed_end(s.drop_last())
    } else {
        s
    }
}

/// `s` without the white space around it.
pub open spec fn trimmed(s: Seq<char>) -> Seq<char> {
    trimmed_end(trimmed_start(s))
}

/// `s` without the run of `c` at its front.
pub open spec fn without_leading(s: Seq<char>, c: char) -> Seq<char>
    decreases s.len(),
{
    if s.len() > 0 && s[0] == c {
        without_leading(s.skip(1), c)
    } else {
        s
    }
}

/// `s` without the run of `c` at its end.
pub open spec fn without_trailing(s: Seq<char>, c: char) -> Seq<char>
    decreases s.len(),
{
    if s.len() > 0 && s.last() == c {
        without_trailing(s.drop_last(), c)
    } else {
        s
    }
}

/// The ASCII lower case of one character; others stay.
pub open spec fn lower_char(c: char) -> char {
    if 'A' <= c && c <= 'Z' {
        ((c as u32) + 32) as char
    } else {
        c
    }
}

/// `s` with its ASCII capitals in lower case.
pub open spec fn ascii_lower(s: Seq<char>) -> Seq<char> {
    s.map_values(|c: char| lower_char(c))
}

/// `t` stands in `s` at position `i`.
pub open spec fn occurs_at(s: Seq<char>, t: Seq<char>, i: int) -> bool {
    0 <= i && i + t.len() <= s.len() && s.subrange(i, i + t.len()) == t
}

/// `t` stands somewhere in `s`.
pub open spec fn occurs(s: Seq<char>, t: Seq<char>) -> bool {
    exists|i: int| occurs_at(s, t, i)
}

/// Each character of `s` replaced by the text that `f` gives for it.
pub open spec fn mapped(s: Seq<char>, f: spec_fn(char) -> Seq<char>) -> Seq<char>
    decreases s.len(),
{
    if s.len() == 0 {
        Seq::empty()
    } else {
        mapped(s.drop_last(), f) + f(s.last())
    }
}

/// The parts one after the other.
pub open spec fn flattened(parts: Seq<Seq<char>>) -> Seq<char>
    decreases parts.len(),
{
    if parts.len() == 0 {
        Seq::empty()
    } else {
        flattened(parts.drop_last()) + parts.last()
    }
}

/// The parts one after the other, with `sep` between them.
pub open spec fn joined(parts: Seq<Seq<char>>, sep: Seq<char>) -> Seq<char>
    decreases parts.len(),
{
    if parts.len() == 0 {
        Seq::empty()
    } else if parts.len() == 1 {
        parts[0]
    } else {
        joined(parts.drop_last(), sep) + sep + parts.last()
    }
}

/// The pieces of `s` between occurrences of `c`; as many as there are occurrences, and one more.
pub open spec fn split_on(s: Seq<char>, c: char) -> Seq<Seq<char>>
    decreases s.len(),
{
    if s.len() == 0 {
        seq![Seq::empty()]
    } else {
        let rest = split_on(s.drop_last(), c);
        if s.last() == c {
            rest.push(Seq::empty())
        } else {
            rest.update(rest.len() - 1, rest.last().push(s.last()))
        }
    }
}

/// `s` repeated `n` times.
pub open spec fn repeated(s: Seq<char>, n: nat) -> Seq<char>
    decreases n,
{
    if n == 0 {
        Seq::empty()
    } else {
        repeated(s, (n - 1) as nat) + s
    }
}

/// The decimal digit `d`.
pub open spec fn digit(d: int) -> char {
    (48 + d) as char
}

/// `n` in decimal.
pub open spec fn decimal(n: nat) -> Seq<char>
    decreases n,
{
    if n < 10 {
        seq![digit(n as int)]
    } else {
        decimal(n / 10).push(digit((n % 10) as int))
    }
}

/// `i` in decimal, with a sign where it is negative.
pub open spec fn signed_decimal(i: int) -> Seq<char> {
    if i < 0 {
        seq!['-'] + decimal((-i) as nat)
    } else {
        decimal(i as nat)
    }
}

/// Every character is a decimal digit.
pub open spec fn all_digits(s: Seq<char>) -> bool {
    forall|i: int| 0 <= i < s.len() ==> '0' <= #[trigger] s[i] && s[i] <= '9'
}

/// The number that decimal digits stand for.
pub open spec fn digits_value(s: Seq<char>) -> int
    decreases s.len(),
{
    if s.len() == 0 {
        0
    } else {
        digits_value(s.drop_last()) * 10 + (s.last() as int - 48)
    }
}

/// The number that a text stands for: decimal digits, with a plus sign in front allowed.
pub open spec fn unsigned_value(s: Seq<char>) -> Option<int> {
    let d = if s.len() > 0 && s[0] == '+' {
        s.skip(1)
    } else {
        s
    };
    if d.len() > 0 && all_digits(d) {
        Some(digits_value(d))
    } else {
        None
    }
}

/// `a` stands before `b` in the order of their characters.
pub open spec fn before(a: Seq<char>, b: Seq<char>) -> bool
    decreases b.len(),
{
    if b.len() == 0 {
        false
    } else if a.len() == 0 {
        true
    } else {
        a[0] < b[0] || (a[0] == b[0] && before(a.skip(1), b.skip(1)))
    }
}

/// The path of a file in a directory.
pub open spec fn path_in(dir: Seq<char>, file: Seq<char>) -> Seq<char> {
    if dir.len() == 0 {
        file
    } else if dir.last() == '/' {
        dir + file
    } else {
        dir + "/"@ + file
    }
}

/// The texts that a vector of strings holds.
pub open spec fn texts(v: Seq<String>) -> Seq<Seq<char>> {
    v.map_values(|s: String| s@)
}

/// The text that an optional string holds.
pub open spec fn opt_text(o: Option<String>) -> Option<Seq<char>> {
    match o {
        Some(s) => Some(s@),
        None => None,
    }
}

/// The text of an optional string, empty where there is none.
pub open spec fn text_or_empty(o: Option<Seq<char>>) -> Seq<char> {
    match o {
        Some(s) => s,
        None => Seq::empty(),
    }
}

// ---------------------------------------------------------------------------
// Steps of the definitions
// ---------------------------------------------------------------------------

pub(crate) proof fn lemma_take_step<T>(s: Seq<T>, i: int)
    requires
        0 <= i < s.len(),
    ensures
        s.take(i + 1).drop_last() == s.take(i),
        s.take(i + 1).last() == s[i],
        s.take(i + 1) == s.take(i).push(s[i]),
{
    assert(s.take(i + 1).drop_last() =~= s.take(i));
    assert(s.take(i + 1) =~= s.take(i).push(s[i]));
}

pub(crate) proof fn lemma_take_all<T>(s: Seq<T>)
    ensures
        s.take(s.len() as int) == s,
{
    assert(s.take(s.len() as int) =~= s);
}

pub(crate) proof fn lemma_mapped_step(s: Seq<char>, f: spec_fn(char) -> Seq<char>, i: int)
    requires
        0 <= i < s.len(),
    ensures
        mapped(s.take(i + 1), f) == mapped(s.take(i), f) + f(s[i]),
{
    lemma_take_step(s, i);
}

pub(crate) proof fn lemma_joined_step(parts: Seq<Seq<char>>, sep: Seq<char>, i: int)
    requires
        0 <= i < parts.len(),
    ensures
        joined(parts.take(0), sep) == Seq::<char>::empty(),
        joined(parts.take(i + 1), sep) == if i == 0 {
            joined(parts.take(0), sep) + parts[0]
        } else {
            joined(parts.take(i), sep) + sep + parts[i]
        },
{
    lemma_take_step(parts, i);
    if i == 0 {
        assert(Seq::<char>::empty() + parts[0] =~= parts[0]);
    }
}

/// Nothing that `f` never gives occurs in the mapped text.
pub proof fn lemma_mapped_avoids(s: Seq<char>, f: spec_fn(char) -> Seq<char>, bad: char)
    requires
        forall|c: char| !(#[trigger] f(c)).contains(bad),
    ensures
        !mapped(s, f).contains(bad),
    decreases s.len(),
{
    if s.len() > 0 {
        lemma_mapped_avoids(s.drop_last(), f, bad);
        let head = mapped(s.drop_last(), f);
        let tail = f(s.last());
        if (head + tail).contains(bad) {
            let i = choose|i: int| 0 <= i < (head + tail).len() && (head + tail)[i] == bad;
            if i < head.len() {
                assert(head[i] == bad);
            } else {
                assert(tail[i - head.len()] == bad);
            }
        }
    }
}

pub(crate) proof fn lemma_split_nonempty(s: Seq<char>, c: char)
    ensures
        split_on(s, c).len() >= 1,
    decreases s.len(),
{
    if s.len() > 0 {
        lemma_split_nonempty(s.drop_last(), c);
    }
}

proof fn lemma_digits_grow(s: Seq<char>, i: int)
    requires
        all_digits(s),
        0 <= i <= s.len(),
    ensures
        0 <= digits_value(s.take(i)) <= digits_value(s),
    decreases s.len() - i,
{
    lemma_digits_not_negative(s.take(i));
    if i < s.len() {
        lemma_digits_grow(s, i + 1);
        lemma_take_step(s, i);
        assert('0' <= s[i]);
    } else {
        lemma_take_all(s);
    }
}

proof fn lemma_digits_not_negative(s: Seq<char>)
    requires
        all_digits(s),
    ensures
        0 <= digits_value(s),
    decreases s.len(),
{
    if s.len() > 0 {
        assert forall|i: int| 0 <= i < s.drop_last().len() implies '0' <= #[trigger]
            s.drop_last()[i] && s.drop_last()[i] <= '9' by {
            assert(s.drop_last()[i] == s[i]);
        }
        lemma_digits_not_negative(s.drop_last());
        assert('0' <= s[s.len() - 1]);
    }
}

/// A text that stands before another does not stand after it.
pub proof fn lemma_before_asymmetric(a: Seq<char>, b: Seq<char>)
    requires
        before(a, b),
    ensures
        !before(b, a),
    decreases b.len(),
{
    if a.len() > 0 && a[0] == b[0] {
        lemma_before_asymmetric(a.skip(1), b.skip(1));
    }
}

/// Not standing after is transitive.
pub proof fn lemma_before_transitive(a: Seq<char>, b: Seq<char>, c: Seq<char>)
    requires
        !before(b, a),
        !before(c, b),
    ensures
        !before(c, a),
    decreases c.len(),
{
    if a.len() > 0 && b.len() > 0 && c.len() > 0 && a[0] == b[0] && b[0] == c[0] {
        lemma_before_transitive(a.skip(1), b.skip(1), c.skip(1));
    }
}

// ---------------------------------------------------------------------------
// The operations
// ---------------------------------------------------------------------------

/// The characters of a text, one by one.
pub fn chars_of(s: &str) -> (r: Vec<char>)
    ensures
        r@ == s@,
{
    let mut out: Vec<char> = Vec::new();
    for c in it: s.chars()
        invariant
            out@ == s@.take(it.index()),
            it.seq() == s@,
    {
        out.push(c);
    }
    proof {
        lemma_take_all(s@);
    }
    out
}

/// The text of the characters `from..to`.
pub fn slice(cs: &Vec<char>, from: usize, to: usize) -> (r: String)
    requires
        from <= to <= cs@.len(),
    ensures
        r@ == cs@.subrange(from as int, to as int),
{
    let mut out = String::new();
    let mut i: usize = from;
    while i < to
        invariant
            from <= i <= to <= cs@.len(),
            out@ == cs@.subrange(from as int, i as int),
        decreases to - i,
    {
        out.push(cs[i]);
        i = i + 1;
        proof {
            assert(cs@.subrange(from as int, i as int) =~= cs@.subrange(
                from as int,
                i - 1,
            ).push(cs@[i - 1]));
        }
    }
    out
}

/// Whether two texts hold the same characters.
pub fn same(a: &str, b: &str) -> (r: bool)
    ensures
        r == (a@ == b@),
{
    str::eq(a, b)
}

/// Whether the first text stands before the second in the order of their characters.
pub fn stands_before(a: &str, b: &str) -> (r: bool)
    ensures
        r == before(a@, b@),
{
    let x = chars_of(a);
    let y = chars_of(b);
    let mut i: usize = 0;
    proof {
        assert(a@.skip(0) =~= a@);
        assert(b@.skip(0) =~= b@);
    }
    while i < x.len() && i < y.len()
        invariant
            i <= x@.len(),
            i <= y@.len(),
            x@ == a@,
            y@ == b@,
            before(a@, b@) == before(a@.skip(i as int), b@.skip(i as int)),
        decreases x.len() - i,
    {
        proof {
            assert(a@.skip(i as int).skip(1) =~= a@.skip(i + 1));
            assert(b@.skip(i as int).skip(1) =~= b@.skip(i + 1));
        }
        if x[i] < y[i] {
            return true;
        }
        if y[i] < x[i] {
            return false;
        }
        i = i + 1;
    }
    i < y.len()
}

/// Whether a character is white space.
pub fn white(c: char) -> (r: bool)
    ensures
        r == is_white(c),
{
    let n: u32 = c as u32;
    (n >= 0x09 && n <= 0x0d) || n == 0x20 || n == 0x85 || n == 0xa0 || n == 0x1680 || (n >= 0x2000
        && n <= 0x200a) || n == 0x2028 || n == 0x2029 || n == 0x202f || n == 0x205f || n == 0x3000
}

/// The text without the white space around it.
pub fn trim(s: &str) -> (r: String)
    ensures
        r@ == trimmed(s@),
{
    let cs = chars_of(s);
    let mut from: usize = 0;
    proof {
        assert(s@.skip(0) =~= s@);
    }
    while from < cs.len() && white(cs[from])
        invariant
            from <= cs@.len(),
            cs@ == s@,
            trimmed_start(s@) == trimmed_start(s@.skip(from as int)),
        decreases cs.len() - from,
    {
        proof {
            assert(s@.skip(from as int).skip(1) =~= s@.skip(from + 1));
        }
        from = from + 1;
    }
    proof {
        assert(s@.skip(from as int) =~= s@.subrange(from as int, s@.len() as int));
    }
    let mut to: usize = cs.len();
    while to > from && white(cs[to - 1])
        invariant
            from <= to <= cs@.len(),
            cs@ == s@,
            trimmed(s@) == trimmed_end(s@.subrange(from as int, to as int)),
        decreases to,
    {
        proof {
            assert(s@.subrange(from as int, to as int).drop_last() =~= s@.subrange(
                from as int,
                to - 1,
            ));
        }
        to = to - 1;
    }
    slice(&cs, from, to)
}

/// The text without the run of `c` at its front.
pub fn trim_leading(s: &str, c: char) -> (r: String)
    ensures
        r@ == without_leading(s@, c),
{
    let cs = chars_of(s);
    let mut from: usize = 0;
    proof {
        assert(s@.skip(0) =~= s@);
    }
    while from < cs.len() && cs[from] == c
        invariant
            from <= cs@.len(),
            cs@ == s@,
            without_leading(s@, c) == without_leading(s@.skip(from as int), c),
        decreases cs.len() - from,
    {
        proof {
            assert(s@.skip(from as int).skip(1) =~= s@.skip(from + 1));
        }
        from = from + 1;
    }
    proof {
        assert(s@.skip(from as int) =~= s@.subrange(from as int, s@.len() as int));
    }
    slice(&cs, from, cs.len())
}

/// The text without the run of `c` at its end.
pub fn trim_trailing(s: &str, c: char) -> (r: String)
    ensures
        r@ == without_trailing(s@, c),
{
    let cs = chars_of(s);
    let mut to: usize = cs.len();
    proof {
        assert(s@.take(to as int) =~= s@);
    }
    while to > 0 && cs[to - 1] == c
        invariant
            to <= cs@.len(),
            cs@ == s@,
            without_trailing(s@, c) == without_trailing(s@.take(to as int), c),
        decreases to,
    {
        proof {
            assert(s@.take(to as int).drop_last() =~= s@.take(to - 1));
        }
        to = to - 1;
    }
    proof {
        assert(s@.take(to as int) =~= s@.subrange(0, to as int));
    }
    slice(&cs, 0, to)
}

/// The text with its ASCII capitals in lower case.
pub fn lower(s: &str) -> (r: String)
    ensures
        r@ == ascii_lower(s@),
{
    let cs = chars_of(s);
    let mut out = String::new();
    let mut i: usize = 0;
    while i < cs.len()
        invariant
            i <= cs@.len(),
            cs@ == s@,
            out@ == ascii_lower(s@.take(i as int)),
        decreases cs.len() - i,
    {
        let c = cs[i];
        let l: char = if 'A' <= c && c <= 'Z' {
            ((c as u8) + 32) as char
        } else {
            c
        };
        out.push(l);
        i = i + 1;
        proof {
            lemma_take_step(s@, i - 1);
            assert(out@ =~= ascii_lower(s@.take(i as int)));
        }
    }
    proof {
        lemma_take_all(s@);
    }
    out
}

/// Whether the characters `t` stand in `cs` at `i`.
pub fn matches_at(cs: &Vec<char>, t: &Vec<char>, i: usize) -> (r: bool)
    ensures
        r == occurs_at(cs@, t@, i as int),
{
    if i > cs.len() || t.len() > cs.len() - i {
        return false;
    }
    let mut j: usize = 0;
    while j < t.len()
        invariant
            j <= t@.len(),
            i + t.len() <= cs.len(),
            forall|k: int| 0 <= k < j ==> cs@[i + k] == t@[k],
        decreases t.len() - j,
    {
        if cs[i + j] != t[j] {
            proof {
                assert(cs@.subrange(i as int, i + t@.len())[j as int] != t@[j as int]);
            }
            return false;
        }
        j = j + 1;
    }
    proof {
        assert(cs@.subrange(i as int, i + t@.len()) =~= t@);
    }
    true
}

/// Whether `t` stands somewhere in `s`.
pub fn contains(s: &str, t: &str) -> (r: bool)
    ensures
        r == occurs(s@, t@),
{
    let cs = chars_of(s);
    let ts = chars_of(t);
    let mut i: usize = 0;
    while i < cs.len()
        invariant
            i <= cs@.len(),
            cs@ == s@,
            ts@ == t@,
            forall|k: int| 0 <= k < i ==> !occurs_at(s@, t@, k),
        decreases cs.len() - i,
    {
        if matches_at(&cs, &ts, i) {
            return true;
        }
        i = i + 1;
    }
    matches_at(&cs, &ts, i)
}

/// Whether `s` begins with `t`.
pub fn starts_with(s: &str, t: &str) -> (r: bool)
    ensures
        r == t@.is_prefix_of(s@),
{
    let r = matches_at(&chars_of(s), &chars_of(t), 0);
    r
}

/// What follows `t` in `s`, where `s` begins with it.
pub fn strip_prefix(s: &str, t: &str) -> (r: Option<String>)
    ensures
        match r {
            Some(rest) => t@.is_prefix_of(s@) && rest@ == s@.skip(t@.len() as int),
            None => !t@.is_prefix_of(s@),
        },
{
    let cs = chars_of(s);
    let ts = chars_of(t);
    if matches_at(&cs, &ts, 0) {
        proof {
            assert(s@.skip(t@.len() as int) =~= s@.subrange(t@.len() as int, s@.len() as int));
        }
        Some(slice(&cs, ts.len(), cs.len()))
    } else {
        None
    }
}

/// The parts one after the other.
pub fn concat(parts: &Vec<String>) -> (r: String)
    ensures
        r@ == flattened(texts(parts@)),
{
    let mut out = String::new();
    let mut i: usize = 0;
    while i < parts.len()
        invariant
            i <= parts@.len(),
            out@ == flattened(texts(parts@).take(i as int)),
        decreases parts.len() - i,
    {
        out.append(parts[i].as_str());
        proof {
            lemma_take_step(texts(parts@), i as int);
        }
        i = i + 1;
    }
    proof {
        lemma_take_all(texts(parts@));
    }
    out
}

/// The parts one after the other, with `sep` between them.
pub fn join(parts: &Vec<String>, sep: &str) -> (r: String)
    ensures
        r@ == joined(texts(parts@), sep@),
{
    let mut out = String::new();
    let mut i: usize = 0;
    while i < parts.len()
        invariant
            i <= parts@.len(),
            out@ == joined(texts(parts@).take(i as int), sep@),
        decreases parts.len() - i,
    {
        proof {
            lemma_joined_step(texts(parts@), sep@, i as int);
        }
        if i > 0 {
            out.append(sep);
        }
        out.append(parts[i].as_str());
        i = i + 1;
    }
    proof {
        lemma_take_all(texts(parts@));
    }
    out
}

/// The pieces of the text between occurrences of `c`.
pub fn split(s: &str, c: char) -> (r: Vec<String>)
    ensures
        texts(r@) == split_on(s@, c),
{
    let cs = chars_of(s);
    let mut out: Vec<String> = Vec::new();
    let mut current = String::new();
    let mut i: usize = 0;
    while i < cs.len()
        invariant
            i <= cs@.len(),
            cs@ == s@,
            texts(out@).push(current@) == split_on(s@.take(i as int), c),
        decreases cs.len() - i,
    {
        proof {
            lemma_take_step(s@, i as int);
        }
        let ghost before = texts(out@).push(current@);
        if cs[i] == c {
            out.push(current);
            current = String::new();
            proof {
                assert(texts(out@) =~= before);
                assert(texts(out@).push(current@) =~= before.push(Seq::empty()));
            }
        } else {
            current.push(cs[i]);
            proof {
                assert(texts(out@).push(current@) =~= before.update(
                    before.len() - 1,
                    before.last().push(s@[i as int]),
                ));
            }
        }
        i = i + 1;
    }
    let ghost before = texts(out@).push(current@);
    out.push(current);
    proof {
        lemma_take_all(s@);
        assert(texts(out@) =~= before);
    }
    out
}

/// The text with each `from` replaced by `to`.
pub fn replace_char(s: &str, from: char, to: char) -> (r: String)
    ensures
        r@ == s@.map_values(|c: char| if c == from { to } else { c }),
{
    let cs = chars_of(s);
    let ghost f = |c: char| if c == from { to } else { c };
    let mut out = String::new();
    let mut i: usize = 0;
    while i < cs.len()
        invariant
            i <= cs@.len(),
            cs@ == s@,
            f == (|c: char| if c == from { to } else { c }),
            out@ == s@.take(i as int).map_values(f),
        decreases cs.len() - i,
    {
        out.push(if cs[i] == from { to } else { cs[i] });
        i = i + 1;
        proof {
            lemma_take_step(s@, i - 1);
            assert(out@ =~= s@.take(i as int).map_values(f));
        }
    }
    proof {
        lemma_take_all(s@);
    }
    out
}

/// The text `n` times.
pub fn repeat(s: &str, n: usize) -> (r: String)
    ensures
        r@ == repeated(s@, n as nat),
{
    let mut out = String::new();
    let mut i: usize = 0;
    while i < n
        invariant
            i <= n,
            out@ == repeated(s@, i as nat),
        decreases n - i,
    {
        out.append(s);
        i = i + 1;
    }
    out
}

/// The number in decimal.
pub fn number(n: u64) -> (r: String)
    ensures
        r@ == decimal(n as nat),
    decreases n,
{
    let last: char = (48u8 + (n % 10) as u8) as char;
    if n < 10 {
        let mut out = String::new();
        out.push(last);
        proof {
            assert(out@ =~= seq![digit(n as int)]);
        }
        out
    } else {
        let mut out = number(n / 10);
        out.push(last);
        out
    }
}

/// The number in decimal.
pub fn number_wide(n: u128) -> (r: String)
    ensures
        r@ == decimal(n as nat),
    decreases n,
{
    if n < 10 {
        number(n as u64)
    } else {
        let last: char = (48u8 + (n % 10) as u8) as char;
        let mut out = number_wide(n / 10);
        out.push(last);
        out
    }
}

/// The signed number in decimal.
pub fn signed_number(i: i64) -> (r: String)
    ensures
        r@ == signed_decimal(i as int),
{
    if i < 0 {
        let magnitude: u64 = if i == i64::MIN {
            0x8000_0000_0000_0000u64
        } else {
            (-i) as u64
        };
        let mut out = String::new();
        out.push('-');
        proof {
            assert(out@ =~= seq!['-']);
        }
        out.append(number(magnitude).as_str());
        out
    } else {
        number(i as u64)
    }
}

/// The number that a text stands for, where it is not above `max`.
pub fn parse_unsigned(s: &str, max: u64) -> (r: Option<u64>)
    ensures
        match r {
            Some(v) => unsigned_value(s@) == Some(v as int) && v <= max,
            None => unsigned_value(s@) matches Some(v) ==> v > max,
        },
{
    let cs = chars_of(s);
    let from: usize = if cs.len() > 0 && cs[0] == '+' {
        1
    } else {
        0
    };
    let ghost d = s@.skip(from as int);
    proof {
        assert(s@.skip(0) =~= s@);
    }
    if from >= cs.len() {
        return None;
    }
    let mut value: u64 = 0;
    let mut i: usize = from;
    while i < cs.len()
        invariant
            from <= i <= cs@.len(),
            from < cs@.len(),
            cs@ == s@,
            d == s@.skip(from as int),
            forall|k: int| 0 <= k < i - from ==> '0' <= #[trigger] d[k] && d[k] <= '9',
            value == digits_value(d.take(i - from)),
            value <= max,
            unsigned_value(s@) == (if d.len() > 0 && all_digits(d) {
                Some(digits_value(d))
            } else {
                None
            }),
        decreases cs.len() - i,
    {
        let c = cs[i];
        proof {
            assert(d[i - from] == c);
            lemma_take_step(d, i - from);
        }
        if !('0' <= c && c <= '9') {
            return None;
        }
        let digit: u64 = c as u64 - 48;
        if digit > max || value > (max - digit) / 10 {
            proof {
                assert(value * 10 + digit > max);
                if all_digits(d) {
                    lemma_digits_grow(d, i + 1 - from);
                }
            }
            return None;
        }
        value = value * 10 + digit;
        i = i + 1;
    }
    proof {
        lemma_take_all(d);
    }
    Some(value)
}

/// The string that an optional string holds, empty where there is none.
pub fn or_empty(o: &Option<String>) -> (r: String)
    ensures
        r@ == text_or_empty(opt_text(*o)),
{
    match o {
        Some(s) => s.clone(),
        None => String::new(),
    }
}

/// A copy of a vector of strings.
pub fn clone_texts(v: &Vec<String>) -> (r: Vec<String>)
    ensures
        r@ == v@,
{
    let mut out: Vec<String> = Vec::new();
    let mut i: usize = 0;
    while i < v.len()
        invariant
            i <= v@.len(),
            out@ == v@.take(i as int),
        decreases v.len() - i,
    {
        out.push(v[i].clone());
        proof {
            lemma_take_step(v@, i as int);
        }
        i = i + 1;
    }
    proof {
        lemma_take_all(v@);
    }
    out
}

/// The position of `key` among the texts.
pub fn position(v: &Vec<String>, key: &str) -> (r: Option<usize>)
    ensures
        match r {
            Some(i) => i < v@.len() && v@[i as int]@ == key@ && forall|k: int|
                0 <= k < i ==> (#[trigger] v@[k])@ != key@,
            None => forall|k: int| 0 <= k < v@.len() ==> (#[trigger] v@[k])@ != key@,
        },
{
    let mut i: usize = 0;
    while i < v.len()
        invariant
            i <= v@.len(),
            forall|k: int| 0 <= k < i ==> (#[trigger] v@[k])@ != key@,
        decreases v.len() - i,
    {
        if same(v[i].as_str(), key) {
            return Some(i);
        }
        i = i + 1;
    }
    None
}

/// The path of a file in a directory.
pub fn join_path(dir: &str, file: &str) -> (r: String)
    ensures
        r@ == path_in(dir@, file@),
{
    let cs = chars_of(dir);
    if cs.len() == 0 {
        file.to_owned()
    } else if cs[cs.len() - 1] == '/' {
        dir.to_owned().concat(file)
    } else {
        dir.to_owned().concat("/").concat(file)
    }
}

/// A number in decimal is made of digits, has no needless zeros, and is read as the number.
pub proof fn law_decimal_is_read(n: nat)
    ensures
        decimal(n).len() > 0,
        all_digits(decimal(n)),
        digits_value(decimal(n)) == n,
        decimal(n).len() == 1 || decimal(n)[0] != '0',
        n > 0 ==> decimal(n)[0] != '0',
    decreases n,
{
    let s = decimal(n);
    if n < 10 {
        assert(s.drop_last() =~= Seq::empty());
        assert(digits_value(Seq::empty()) == 0);
    } else {
        law_decimal_is_read(n / 10);
        assert(s.drop_last() =~= decimal(n / 10));
        assert forall|i: int| 0 <= i < s.len() implies '0' <= #[trigger] s[i] && s[i] <= '9' by {
            if i < s.len() - 1 {
                assert(s[i] == decimal(n / 10)[i]);
            }
        }
    }
}

/// Different numbers are written differently, and a sign stands in front of the negative ones only.
pub proof fn law_signed_decimal_tells_numbers_apart(a: int, b: int)
    requires
        signed_decimal(a) == signed_decimal(b),
    ensures
        a == b,
        a < 0 <==> signed_decimal(a)[0] == '-',
{
    law_decimal_is_read(if a < 0 { (-a) as nat } else { a as nat });
    law_decimal_is_read(if b < 0 { (-b) as nat } else { b as nat });
    let x = signed_decimal(a);
    let y = signed_decimal(b);
    if a < 0 {
        assert(x.skip(1) =~= decimal((-a) as nat));
    } else {
        assert('0' <= x[0]);
    }
    if b < 0 {
        assert(y.skip(1) =~= decimal((-b) as nat));
    } else {
        assert('0' <= y[0]);
    }
}

/// The text `t` stands in `s` between two others.
pub(crate) proof fn lemma_occurs_between(a: Seq<char>, t: Seq<char>, b: Seq<char>)
    ensures
        occurs(a + t + b, t),
{
    let s = a + t + b;
    assert(s.subrange(a.len() as int, (a.len() + t.len()) as int) =~= t);
    assert(occurs_at(s, t, a.len() as int));
}

/// What stands in a part stands in the whole.
pub(crate) proof fn lemma_occurs_within(a: Seq<char>, s: Seq<char>, b: Seq<char>, t: Seq<char>)
    requires
        occurs(s, t),
    ensures
        occurs(a + s + b, t),
{
    let i = choose|i: int| occurs_at(s, t, i);
    let whole = a + s + b;
    assert(s.subrange(i, i + t.len()) == t);
    assert(whole.subrange(a.len() + i, a.len() + i + t.len()) =~= s.subrange(i, i + t.len()));
    assert(occurs_at(whole, t, a.len() + i));
}

/// What stands in one of the joined parts stands in the whole.
pub(crate) proof fn lemma_joined_holds(parts: Seq<Seq<char>>, sep: Seq<char>, i: int, t: Seq<char>)
    requires
        0 <= i < parts.len(),
        occurs(parts[i], t),
    ensures
        occurs(joined(parts, sep), t),
    decreases parts.len(),
{
    let nothing = Seq::<char>::empty();
    if parts.len() > 1 {
        let init = parts.drop_last();
        if i < init.len() {
            assert(init[i] == parts[i]);
            lemma_joined_holds(init, sep, i, t);
            lemma_occurs_within(nothing, joined(init, sep), sep + parts.last(), t);
            assert(nothing + joined(init, sep) + (sep + parts.last()) =~= joined(parts, sep));
        } else {
            lemma_occurs_within(joined(init, sep) + sep, parts.last(), nothing, t);
            assert(joined(init, sep) + sep + parts.last() + nothing =~= joined(parts, sep));
        }
    }
}

/// The first character of a text is replaced first.
pub(crate) proof fn lemma_mapped_front(c: char, s: Seq<char>, f: spec_fn(char) -> Seq<char>)
    ensures
        mapped(seq![c] + s, f) == f(c) + mapped(s, f),
    decreases s.len(),
{
    let t = seq![c] + s;
    if s.len() == 0 {
        assert(t.drop_last() =~= Seq::<char>::empty());
        assert(mapped(t.drop_last(), f) == Seq::<char>::empty());
        assert(t.last() == c);
        assert(Seq::<char>::empty() + f(c) =~= f(c) + Seq::<char>::empty());
    } else {
        assert(t.drop_last() =~= seq![c] + s.drop_last());
        lemma_mapped_front(c, s.drop_last(), f);
        assert(t.last() == s.last());
        let m = mapped(s.drop_last(), f);
        assert(f(c) + m + f(s.last()) =~= f(c) + (m + f(s.last())));
    }
}

/// A text with nothing white at its ends stays as it is.
pub(crate) proof fn lemma_trimmed_same(s: Seq<char>)
    requires
        s.len() > 0 ==> !is_white(s[0]) && !is_white(s.last()),
    ensures
        trimmed(s) == s,
{
}

/// A part without the separator in it, behind parts that are split already.
pub(crate) proof fn lemma_split_tail(a: Seq<char>, b: Seq<char>, c: char)
    requires
        !b.contains(c),
    ensures
        split_on(a + b, c) == split_on(a, c).update(
            split_on(a, c).len() - 1,
            split_on(a, c).last() + b,
        ),
    decreases b.len(),
{
    lemma_split_nonempty(a, c);
    let parts = split_on(a, c);
    if b.len() == 0 {
        assert(a + b =~= a);
        assert(parts.last() + b =~= parts.last());
        assert(parts.update(parts.len() - 1, parts.last() + b) =~= parts);
    } else {
        assert(b.contains(b.last()));
        assert forall|x: char| #[trigger] b.drop_last().contains(x) implies b.contains(x) by {
            let i = b.drop_last().index_of(x);
            assert(b[i] == x);
        }
        lemma_split_tail(a, b.drop_last(), c);
        assert((a + b).drop_last() =~= a + b.drop_last());
        assert((a + b).last() == b.last());
        let so_far = parts.last() + b.drop_last();
        assert(so_far.push(b.last()) =~= parts.last() + b);
        assert(split_on(a + b, c) =~= parts.update(parts.len() - 1, parts.last() + b));
    }
}

/// A separator and one more part.
pub(crate) proof fn lemma_split_more(a: Seq<char>, b: Seq<char>, c: char)
    requires
        !b.contains(c),
    ensures
        split_on(a + seq![c] + b, c) == split_on(a, c).push(b),
{
    let start = a + seq![c];
    assert(start.drop_last() =~= a);
    assert(start.last() == c);
    lemma_split_tail(start, b, c);
    let parts = split_on(a, c);
    assert(split_on(start, c) == parts.push(Seq::empty()));
    assert(Seq::<char>::empty() + b =~= b);
    assert(parts.push(Seq::empty()).update(parts.len() as int, b) =~= parts.push(b));
}

pub(crate) proof fn lemma_unsigned_not_negative(s: Seq<char>)
    ensures
        unsigned_value(s) is Some ==> unsigned_value(s)->0 >= 0,
{
    if unsigned_value(s) is Some {
        if s[0] == '+' {
            lemma_digits_not_negative(s.skip(1));
        } else {
            lemma_digits_not_negative(s);
        }
    }
}

pub(crate) proof fn lemma_occurs_itself(s: Seq<char>)
    ensures
        occurs(s, s),
{
    assert(s.subrange(0, s.len() as int) =~= s);
    assert(occurs_at(s, s, 0));
}

/// Only white space is taken off a text, and all of it at both ends.
pub proof fn law_only_white_space_is_trimmed(s: Seq<char>) -> (ends: (int, int))
    ensures
        0 <= ends.0 <= ends.1 <= s.len(),
        trimmed(s) == s.subrange(ends.0, ends.1),
        forall|k: int| 0 <= k < ends.0 ==> is_white(#[trigger] s[k]),
        forall|k: int| ends.1 <= k < s.len() ==> is_white(#[trigger] s[k]),
        trimmed(s).len() > 0 ==> !is_white(trimmed(s)[0]) && !is_white(trimmed(s).last()),
{
    let i = lemma_trimmed_start(s);
    let rest = trimmed_start(s);
    let j = lemma_trimmed_end(rest);
    assert(rest.subrange(0, j) =~= s.subrange(i, i + j));
    assert forall|k: int| i + j <= k < s.len() implies is_white(#[trigger] s[k]) by {
        assert(rest[k - i] == s[k]);
    }
    if trimmed(s).len() > 0 {
        assert(trimmed(s)[0] == rest[0]);
    }
    (i, i + j)
}

proof fn lemma_trimmed_start(s: Seq<char>) -> (i: int)
    ensures
        0 <= i <= s.len(),
        trimmed_start(s) == s.subrange(i, s.len() as int),
        forall|k: int| 0 <= k < i ==> is_white(#[trigger] s[k]),
        i < s.len() ==> !is_white(s[i]),
    decreases s.len(),
{
    if s.len() > 0 && is_white(s[0]) {
        let rest = s.skip(1);
        let j = lemma_trimmed_start(rest);
        assert(rest.subrange(j, rest.len() as int) =~= s.subrange(j + 1, s.len() as int));
        assert forall|k: int| 0 <= k < j + 1 implies is_white(#[trigger] s[k]) by {
            if k > 0 {
                assert(rest[k - 1] == s[k]);
            }
        }
        if j < rest.len() {
            assert(rest[j] == s[j + 1]);
        }
        j + 1
    } else {
        assert(s.subrange(0, s.len() as int) =~= s);
        0
    }
}

proof fn lemma_trimmed_end(s: Seq<char>) -> (j: int)
    ensures
        0 <= j <= s.len(),
        trimmed_end(s) == s.subrange(0, j),
        forall|k: int| j <= k < s.len() ==> is_white(#[trigger] s[k]),
        j > 0 ==> !is_white(s[j - 1]),
    decreases s.len(),
{
    if s.len() > 0 && is_white(s.last()) {
        let init = s.drop_last();
        let j = lemma_trimmed_end(init);
        assert(init.subrange(0, j) =~= s.subrange(0, j));
        assert forall|k: int| j <= k < s.len() implies is_white(#[trigger] s[k]) by {
            if k < init.len() {
                assert(init[k] == s[k]);
            }
        }
        if j > 0 {
            assert(init[j - 1] == s[j - 1]);
        }
        j
    } else {
        assert(s.subrange(0, s.len() as int) =~= s);
        s.len() as int
    }
}

/// The parts of a text, with the separator between them, are the text, and no part holds the
/// separator.
pub proof fn law_parts_make_up_the_text(s: Seq<char>, c: char)
    ensures
        joined(split_on(s, c), seq![c]) == s,
        split_on(s, c).len() > 0,
        forall|i: int| 0 <= i < split_on(s, c).len() ==> !(#[trigger] split_on(s, c)[i]).contains(c),
    decreases s.len(),
{
    let parts = split_on(s, c);
    if s.len() == 0 {
        assert(joined(parts, seq![c]) =~= s);
    } else {
        let init = s.drop_last();
        let rest = split_on(init, c);
        law_parts_make_up_the_text(init, c);
        let front = rest.drop_last();
        if s.last() == c {
            assert(parts.drop_last() =~= rest);
            assert(joined(parts, seq![c]) =~= joined(rest, seq![c]) + seq![c] + Seq::<char>::empty());
            assert(init + seq![c] + Seq::<char>::empty() =~= s);
            assert forall|i: int| 0 <= i < parts.len() implies !(#[trigger] parts[i]).contains(
                c,
            ) by {
                if i < rest.len() {
                    assert(parts[i] == rest[i]);
                }
            }
        } else {
            assert(parts.drop_last() =~= front);
            let old = rest.last();
            assert(parts.last() == old.push(s.last()));
            if rest.len() == 1 {
                assert(init == old);
                assert(parts[0] =~= s);
            } else {
                let j = joined(front, seq![c]);
                assert(init == j + seq![c] + old);
                assert(j + seq![c] + old.push(s.last()) =~= (j + seq![c] + old).push(s.last()));
                assert(init.push(s.last()) =~= s);
            }
            assert forall|i: int| 0 <= i < parts.len() implies !(#[trigger] parts[i]).contains(
                c,
            ) by {
                if i < rest.len() - 1 {
                    assert(parts[i] == rest[i]);
                } else {
                    assert(!rest[rest.len() - 1].contains(c));
                    let p = parts[i];
                    if p.contains(c) {
                        let k = choose|k: int| 0 <= k < p.len() && p[k] == c;
                        if k < old.len() {
                            assert(old[k] == c);
                        }
                    }
                }
            }
        }
    }
}

/// Capitals become small letters and nothing else changes, so that doing it twice is doing it once.
pub proof fn law_only_capitals_are_lowered(s: Seq<char>, i: int)
    requires
        0 <= i < s.len(),
    ensures
        ascii_lower(s).len() == s.len(),
        'A' <= s[i] <= 'Z' ==> ascii_lower(s)[i] as u32 == s[i] as u32 + 32,
        !('A' <= s[i] <= 'Z') ==> ascii_lower(s)[i] == s[i],
        ascii_lower(ascii_lower(s)) == ascii_lower(s),
{
    assert(ascii_lower(ascii_lower(s)) =~= ascii_lower(s));
}

/// Of two texts one stands before the other unless they are the same, and the first character in
/// which they differ decides; a text stands before every longer one that begins with it.
pub proof fn law_first_difference_decides(
    start: Seq<char>,
    a: char,
    b: char,
    x: Seq<char>,
    y: Seq<char>,
)
    ensures
        a < b ==> before(start + seq![a] + x, start + seq![b] + y),
        before(start, start + seq![a] + x),
        !before(start, start),
    decreases start.len(),
{
    let s = start + seq![a] + x;
    let t = start + seq![b] + y;
    if start.len() > 0 {
        let rest = start.skip(1);
        law_first_difference_decides(rest, a, b, x, y);
        assert(s.skip(1) =~= rest + seq![a] + x);
        assert(t.skip(1) =~= rest + seq![b] + y);
    }
}

/// Of two different texts one stands before the other.
pub proof fn law_texts_are_ordered(a: Seq<char>, b: Seq<char>)
    ensures
        a != b ==> before(a, b) || before(b, a),
    decreases a.len(),
{
    if a.len() > 0 && b.len() > 0 && a[0] == b[0] {
        law_texts_are_ordered(a.skip(1), b.skip(1));
        if a.skip(1) == b.skip(1) {
            assert(a =~= seq![a[0]] + a.skip(1));
            assert(b =~= seq![b[0]] + b.skip(1));
        }
    } else if a.len() == 0 && b.len() == 0 {
        assert(a =~= b);
    }
}

/// The path of a file is that of its directory, one slash, and the file.
pub proof fn law_file_stands_in_its_directory(dir: Seq<char>, file: Seq<char>)
    ensures
        dir.is_prefix_of(path_in(dir, file)),
        file.is_suffix_of(path_in(dir, file)),
        dir.len() > 0 && dir.last() != '/' ==> path_in(dir, file) == path_in(dir.push('/'), file),
        path_in(Seq::empty(), file) == file,
{
    reveal_strlit("/");
    let p = path_in(dir, file);
    assert(dir =~= p.subrange(0, dir.len() as int));
    assert(file =~= p.subrange(p.len() - file.len(), p.len() as int));
    assert(dir.push('/') + file =~= dir + "/"@ + file);
}

/// A repeated text is as long as its copies together.
pub proof fn law_copies_add_up(s: Seq<char>, n: nat, m: nat)
    ensures
        repeated(s, n + m) == repeated(s, n) + repeated(s, m),
        repeated(s, 1) == s,
    decreases m,
{
    assert(repeated(s, 0) == Seq::<char>::empty());
    assert(repeated(s, 1) =~= s) by {
        assert(repeated(s, 1) == repeated(s, 0) + s);
    }
    if m == 0 {
        assert(repeated(s, n) + Seq::<char>::empty() =~= repeated(s, n));
    } else {
        law_copies_add_up(s, n, (m - 1) as nat);
        let a = repeated(s, n);
        let b = repeated(s, (m - 1) as nat);
        assert(a + b + s =~= a + (b + s));
    }
}

/// A number in decimal is read as itself, with a plus sign too; what holds anything but digits is no
/// number.
pub proof fn law_written_numbers_are_read(n: nat, s: Seq<char>, i: int)
    ensures
        unsigned_value(decimal(n)) == Some(n as int),
        unsigned_value(seq!['+'] + decimal(n)) == Some(n as int),
        0 <= i < s.len() && !('0' <= s[i] <= '9') && !(i == 0 && s[i] == '+') ==> unsigned_value(
            s,
        ) is None,
        unsigned_value(Seq::empty()) is None,
{
    law_decimal_is_read(n);
    let d = decimal(n);
    assert('0' <= d[0] && d[0] <= '9');
    assert((seq!['+'] + d).skip(1) =~= d);
    if 0 <= i < s.len() && !('0' <= s[i] <= '9') && !(i == 0 && s[i] == '+') {
        if s[0] == '+' {
            assert(s.skip(1)[i - 1] == s[i]);
        }
    }
}

pub(crate) proof fn lemma_occurs_longer(s: Seq<char>, x: Seq<char>, t: Seq<char>)
    requires
        occurs(s, t),
    ensures
        occurs(s + x, t),
{
    let nothing = Seq::<char>::empty();
    lemma_occurs_within(nothing, s, x, t);
    assert(nothing + s + x =~= s + x);
}

pub(crate) proof fn lemma_occurs_last(s: Seq<char>, t: Seq<char>)
    ensures
        occurs(s + t, t),
{
    let nothing = Seq::<char>::empty();
    lemma_occurs_between(s, t, nothing);
    assert(s + t + nothing =~= s + t);
}

} // verus!
