//! Text operations on Unicode strings, stated over their sequences of characters.
use vstd::prelude::*;
use vstd::string::*;
use vstd::utf8::{decode_utf8, valid_utf8};

verus! {

// ---------------------------------------------------------------------------
// Characters
// ---------------------------------------------------------------------------

/// The characters with the Unicode property White_Space.
pub open spec fn is_white(c: char) -> bool {
    ||| '\u{9}' <= c <= '\u{d}'
    ||| c == ' '
    ||| c == '\u{85}'
    ||| c == '\u{a0}'
    ||| c == '\u{1680}'
    ||| '\u{2000}' <= c <= '\u{200a}'
    ||| c == '\u{2028}'
    ||| c == '\u{2029}'
    ||| c == '\u{202f}'
    ||| c == '\u{205f}'
    ||| c == '\u{3000}'
}

/// Whether a character is white space.
pub fn white(c: char) -> (r: bool)
    ensures
        r == is_white(c),
{
    ('\u{9}' <= c && c <= '\u{d}') || c == ' ' || c == '\u{85}' || c == '\u{a0}' || c == '\u{1680}'
        || ('\u{2000}' <= c && c <= '\u{200a}') || c == '\u{2028}' || c == '\u{2029}' || c
        == '\u{202f}' || c == '\u{205f}' || c == '\u{3000}'
}

/// `String::push` appends one character.
pub assume_specification[ String::push ](s: &mut String, c: char)
    ensures
        final(s)@ == old(s)@.push(c),
;

/// The characters of a string, in order.
pub fn chars_of(s: &str) -> (r: Vec<char>)
    ensures
        r@ == s@,
{
    let mut out: Vec<char> = Vec::new();
    for c in it: s.chars()
        invariant
            out@ == s@.take(it.index() as int),
            it.seq() == s@,
    {
        out.push(c);
        proof {
            assert(s@.take(it.index() as int + 1) =~= s@.take(it.index() as int).push(c));
        }
    }
    proof {
        assert(s@.take(s@.len() as int) =~= s@);
    }
    out
}

/// The string made of the characters `from..to` of a list.
pub fn text_of(chars: &Vec<char>, from: usize, to: usize) -> (r: String)
    requires
        from <= to <= chars@.len(),
    ensures
        r@ == chars@.subrange(from as int, to as int),
{
    let mut out = String::new();
    let mut i: usize = from;
    while i < to
        invariant
            from <= i <= to <= chars@.len(),
            out@ == chars@.subrange(from as int, i as int),
        decreases to - i,
    {
        out.push(chars[i]);
        i = i + 1;
        proof {
            assert(chars@.subrange(from as int, i as int) =~= chars@.subrange(
                from as int,
                i - 1,
            ).push(chars@[i - 1]));
        }
    }
    out
}

// ---------------------------------------------------------------------------
// Equality and order
// ---------------------------------------------------------------------------

/// Whether two strings hold the same characters.
pub fn same(a: &str, b: &str) -> (r: bool)
    ensures
        r == (a@ == b@),
{
    let mut x = a.chars();
    let mut y = b.chars();
    let ghost mut done: Seq<char> = Seq::empty();
    proof {
        assert(a@ =~= done + vstd::std_specs::iter::IteratorSpec::remaining(&x));
        assert(b@ =~= done + vstd::std_specs::iter::IteratorSpec::remaining(&y));
    }
    loop
        invariant
            a@ == done + vstd::std_specs::iter::IteratorSpec::remaining(&x),
            b@ == done + vstd::std_specs::iter::IteratorSpec::remaining(&y),
            done.len() <= a@.len(),
        decreases a@.len() - done.len(),
    {
        let ghost left = vstd::std_specs::iter::IteratorSpec::remaining(&x);
        let ghost right = vstd::std_specs::iter::IteratorSpec::remaining(&y);
        match (x.next(), y.next()) {
            (Some(c), Some(d)) => {
                proof {
                    assert(a@[done.len() as int] == c);
                    assert(b@[done.len() as int] == d);
                }
                if c != d {
                    return false;
                }
                proof {
                    assert(left =~= seq![c] + vstd::std_specs::iter::IteratorSpec::remaining(&x));
                    assert(right =~= seq![d] + vstd::std_specs::iter::IteratorSpec::remaining(&y));
                    assert(done + (seq![c] + vstd::std_specs::iter::IteratorSpec::remaining(&x)) =~= done.push(c) + vstd::std_specs::iter::IteratorSpec::remaining(&x));
                    assert(done + (seq![d] + vstd::std_specs::iter::IteratorSpec::remaining(&y)) =~= done.push(c) + vstd::std_specs::iter::IteratorSpec::remaining(&y));
                    done = done.push(c);
                }
            },
            (None, None) => {
                proof {
                    assert(a@ =~= b@);
                }
                return true;
            },
            _ => {
                proof {
                    assert(a@.len() != b@.len());
                }
                return false;
            },
        }
    }
}

/// The order of strings: by the first character in which they differ, a proper prefix first.
pub open spec fn precedes(a: Seq<char>, b: Seq<char>) -> bool
    decreases a.len(),
{
    if b.len() == 0 {
        false
    } else if a.len() == 0 {
        true
    } else if a[0] != b[0] {
        a[0] < b[0]
    } else {
        precedes(a.drop_first(), b.drop_first())
    }
}

proof fn lemma_precedes_at(a: Seq<char>, b: Seq<char>, k: int)
    requires
        0 <= k <= a.len(),
        k <= b.len(),
        a.take(k) == b.take(k),
        k < a.len() && k < b.len() ==> a[k] != b[k],
    ensures
        precedes(a, b) == (k < b.len() && (k == a.len() || a[k] < b[k])),
    decreases k,
{
    if k > 0 {
        assert(a[0] == a.take(k)[0]);
        assert(b[0] == b.take(k)[0]);
        assert(a.drop_first().take(k - 1) =~= a.take(k).drop_first());
        assert(b.drop_first().take(k - 1) =~= b.take(k).drop_first());
        lemma_precedes_at(a.drop_first(), b.drop_first(), k - 1);
    }
}

/// The order of strings is strict.
pub proof fn precedes_irreflexive(a: Seq<char>)
    ensures
        !precedes(a, a),
    decreases a.len(),
{
    if a.len() > 0 {
        precedes_irreflexive(a.drop_first());
    }
}

/// The order of strings is decided by the first character in which they differ: the string whose
/// character has the lower number comes first. A string comes before any that begins with it and
/// goes on.
pub proof fn first_difference_decides(common: Seq<char>, a: Seq<char>, b: Seq<char>)
    ensures
        a.len() > 0 && b.len() > 0 && a[0] < b[0] ==> precedes(
            common + a,
            common + b,
        ) && !precedes(common + b, common + a),
        a.len() > 0 ==> precedes(common, common + a) && !precedes(common + a, common),
{
    let k = common.len() as int;
    assert((common + a).take(k) =~= common);
    assert((common + b).take(k) =~= common);
    assert(common.take(k) =~= common);
    if a.len() > 0 {
        lemma_precedes_at(common, common + a, k);
        lemma_precedes_at(common + a, common, k);
        if b.len() > 0 && a[0] < b[0] {
            assert((common + a)[k] == a[0]);
            assert((common + b)[k] == b[0]);
            lemma_precedes_at(common + a, common + b, k);
            lemma_precedes_at(common + b, common + a, k);
        }
    }
}

/// The order of strings is transitive.
pub proof fn precedes_transitive(a: Seq<char>, b: Seq<char>, c: Seq<char>)
    requires
        precedes(a, b),
        precedes(b, c),
    ensures
        precedes(a, c),
    decreases a.len(),
{
    if a.len() > 0 && b.len() > 0 && c.len() > 0 && a[0] == b[0] && b[0] == c[0] {
        precedes_transitive(a.drop_first(), b.drop_first(), c.drop_first());
    }
}

/// Of two different strings one precedes the other.
pub proof fn precedes_total(a: Seq<char>, b: Seq<char>)
    ensures
        precedes(a, b) || precedes(b, a) || a == b,
    decreases a.len(),
{
    if a.len() > 0 && b.len() > 0 && a[0] == b[0] {
        precedes_total(a.drop_first(), b.drop_first());
        if a.drop_first() == b.drop_first() {
            assert(a =~= seq![a[0]] + a.drop_first());
            assert(b =~= seq![b[0]] + b.drop_first());
        }
    } else if a.len() == 0 && b.len() == 0 {
        assert(a =~= b);
    }
}

/// Whether one string precedes another.
pub fn before(a: &str, b: &str) -> (r: bool)
    ensures
        r == precedes(a@, b@),
{
    let mut x = a.chars();
    let mut y = b.chars();
    let ghost mut done: Seq<char> = Seq::empty();
    proof {
        assert(a@ =~= done + vstd::std_specs::iter::IteratorSpec::remaining(&x));
        assert(b@ =~= done + vstd::std_specs::iter::IteratorSpec::remaining(&y));
    }
    loop
        invariant
            a@ == done + vstd::std_specs::iter::IteratorSpec::remaining(&x),
            b@ == done + vstd::std_specs::iter::IteratorSpec::remaining(&y),
            done.len() <= a@.len(),
        decreases a@.len() - done.len(),
    {
        let ghost left = vstd::std_specs::iter::IteratorSpec::remaining(&x);
        let ghost right = vstd::std_specs::iter::IteratorSpec::remaining(&y);
        let ghost k = done.len() as int;
        proof {
            assert(a@.take(k) =~= done);
            assert(b@.take(k) =~= done);
        }
        let c = x.next();
        let d = y.next();
        match (c, d) {
            (Some(c), Some(d)) => {
                proof {
                    assert(a@[k] == c);
                    assert(b@[k] == d);
                }
                if c != d {
                    proof {
                        lemma_precedes_at(a@, b@, k);
                    }
                    return c < d;
                }
                proof {
                    assert(left =~= seq![c] + vstd::std_specs::iter::IteratorSpec::remaining(&x));
                    assert(right =~= seq![d] + vstd::std_specs::iter::IteratorSpec::remaining(&y));
                    assert(done + (seq![c] + vstd::std_specs::iter::IteratorSpec::remaining(&x)) =~= done.push(c) + vstd::std_specs::iter::IteratorSpec::remaining(&x));
                    assert(done + (seq![d] + vstd::std_specs::iter::IteratorSpec::remaining(&y)) =~= done.push(c) + vstd::std_specs::iter::IteratorSpec::remaining(&y));
                    done = done.push(c);
                }
            },
            _ => {
                proof {
                    lemma_precedes_at(a@, b@, k);
                }
                return c.is_none() && d.is_some();
            },
        }
    }
}

// ---------------------------------------------------------------------------
// Searching
// ---------------------------------------------------------------------------

/// `needle` stands in `hay` at position `i`.
pub open spec fn occurs_at(hay: Seq<char>, needle: Seq<char>, i: int) -> bool {
    &&& 0 <= i
    &&& i + needle.len() <= hay.len()
    &&& hay.subrange(i, i + needle.len()) == needle
}

/// `needle` stands somewhere in `hay`.
pub open spec fn has(hay: Seq<char>, needle: Seq<char>) -> bool {
    exists|i: int| occurs_at(hay, needle, i)
}

/// `hay` begins with `prefix`.
pub open spec fn begins(hay: Seq<char>, prefix: Seq<char>) -> bool {
    occurs_at(hay, prefix, 0)
}

/// `hay` ends with `suffix`.
pub open spec fn ends(hay: Seq<char>, suffix: Seq<char>) -> bool {
    occurs_at(hay, suffix, hay.len() - suffix.len())
}

/// A string holds every part of it, begins with its first part and ends with its last; and what it
/// holds is a part of it.
pub proof fn parts_make_the_whole(
    whole: Seq<char>,
    part: Seq<char>,
    before: Seq<char>,
    after: Seq<char>,
)
    ensures
        whole == before + part + after ==> has(whole, part),
        whole == part + after ==> begins(whole, part),
        whole == before + part ==> ends(whole, part),
        has(whole, part) ==> exists|b: Seq<char>, a: Seq<char>|
            whole == #[trigger] (b + part + a),
        begins(whole, part) ==> exists|a: Seq<char>| whole == #[trigger] (part + a),
        ends(whole, part) ==> exists|b: Seq<char>| whole == #[trigger] (b + part),
{
    if whole == before + part + after {
        assert(whole.subrange(before.len() as int, (before.len() + part.len()) as int) =~= part);
        assert(occurs_at(whole, part, before.len() as int));
    }
    if whole == part + after {
        assert(whole.subrange(0, part.len() as int) =~= part);
    }
    if whole == before + part {
        assert(whole.subrange(before.len() as int, (before.len() + part.len()) as int) =~= part);
    }
    if has(whole, part) {
        let i = choose|i: int| occurs_at(whole, part, i);
        assert(whole =~= whole.take(i) + part + whole.skip(i + part.len()));
    }
    if begins(whole, part) {
        assert(whole =~= part + whole.skip(part.len() as int));
    }
    if ends(whole, part) {
        assert(whole =~= whole.take(whole.len() - part.len()) + part);
    }
}

/// An order by what a string says of each element is one that a list can be sorted by.
pub proof fn names_give_an_order<T>(name: spec_fn(T) -> Seq<char>)
    ensures
        crate::order::weak_order(|a: T, b: T| precedes(name(a), name(b))),
{
    let lt = |a: T, b: T| precedes(name(a), name(b));
    assert forall|a: T| !#[trigger] lt(a, a) by {
        precedes_irreflexive(name(a));
    }
    assert forall|a: T, b: T, c: T|
        #![trigger lt(a, b), lt(b, c)]
        (lt(a, b) && lt(b, c) ==> lt(a, c)) && (!lt(a, b) && !lt(b, c) ==> !lt(a, c)) by {
        let (x, y, z) = (name(a), name(b), name(c));
        if precedes(x, y) && precedes(y, z) {
            precedes_transitive(x, y, z);
        }
        precedes_total(x, y);
        precedes_total(y, z);
        if precedes(y, x) && precedes(x, z) {
            precedes_transitive(y, x, z);
        }
        if precedes(x, z) && precedes(z, y) {
            precedes_transitive(x, z, y);
        }
    }
}

fn chars_occur_at(hay: &Vec<char>, needle: &Vec<char>, i: usize) -> (r: bool)
    requires
        i + needle@.len() <= hay@.len(),
    ensures
        r == occurs_at(hay@, needle@, i as int),
{
    let total: usize = hay.len();
    let mut k: usize = 0;
    while k < needle.len()
        invariant
            k <= needle@.len(),
            total == hay@.len(),
            i + needle@.len() <= total,
            forall|m: int| 0 <= m < k ==> hay@[i + m] == needle@[m],
        decreases needle@.len() - k,
    {
        if hay[i + k] != needle[k] {
            proof {
                assert(hay@.subrange(i as int, i + needle@.len())[k as int] == hay@[i + k]);
            }
            return false;
        }
        k = k + 1;
    }
    proof {
        assert(hay@.subrange(i as int, i + needle@.len()) =~= needle@);
    }
    true
}

/// Whether a string holds another.
pub fn contains(hay: &str, needle: &str) -> (r: bool)
    ensures
        r == has(hay@, needle@),
{
    let x = chars_of(hay);
    let y = chars_of(needle);
    if y.len() > x.len() {
        return false;
    }
    let last: usize = x.len() - y.len();
    let mut i: usize = 0;
    while i <= last
        invariant
            x@ == hay@,
            y@ == needle@,
            last == x@.len() - y@.len(),
            i <= last + 1,
            forall|k: int| 0 <= k < i ==> !occurs_at(x@, y@, k),
        decreases last + 1 - i,
    {
        if chars_occur_at(&x, &y, i) {
            return true;
        }
        if i == last {
            return false;
        }
        i = i + 1;
    }
    false
}

/// Whether a string begins with another.
pub fn starts_with(hay: &str, prefix: &str) -> (r: bool)
    ensures
        r == begins(hay@, prefix@),
{
    let x = chars_of(hay);
    let y = chars_of(prefix);
    y.len() <= x.len() && chars_occur_at(&x, &y, 0)
}

/// Whether a string ends with another.
pub fn ends_with(hay: &str, suffix: &str) -> (r: bool)
    ensures
        r == ends(hay@, suffix@),
{
    let x = chars_of(hay);
    let y = chars_of(suffix);
    y.len() <= x.len() && chars_occur_at(&x, &y, x.len() - y.len())
}

/// The position of the first `c` in `s`, or the length where there is none.
pub open spec fn first_of(s: Seq<char>, c: char) -> int
    decreases s.len(),
{
    if s.len() == 0 || s[0] == c {
        0
    } else {
        1 + first_of(s.drop_first(), c)
    }
}

/// What `first_of` gives.
pub proof fn lemma_first_of(s: Seq<char>, c: char, k: int)
    requires
        0 <= k <= s.len(),
        k < s.len() ==> s[k] == c,
        forall|j: int| 0 <= j < k ==> s[j] != c,
    ensures
        first_of(s, c) == k,
    decreases k,
{
    if k > 0 {
        assert(s[0] != c);
        assert forall|j: int| 0 <= j < k - 1 implies s.drop_first()[j] != c by {
            assert(s.drop_first()[j] == s[j + 1]);
        }
        lemma_first_of(s.drop_first(), c, k - 1);
    }
}

/// The bounds of `first_of`.
pub proof fn lemma_first_of_range(s: Seq<char>, c: char)
    ensures
        0 <= first_of(s, c) <= s.len(),
        first_of(s, c) < s.len() ==> s[first_of(s, c)] == c,
        forall|j: int| 0 <= j < first_of(s, c) ==> s[j] != c,
    decreases s.len(),
{
    if s.len() > 0 && s[0] != c {
        lemma_first_of_range(s.drop_first(), c);
        let k = first_of(s.drop_first(), c);
        if k < s.drop_first().len() {
            assert(s.drop_first()[k] == s[k + 1]);
        }
        assert forall|j: int| 0 <= j < k + 1 implies s[j] != c by {
            if j > 0 {
                assert(s.drop_first()[j - 1] == s[j]);
            }
        }
    }
}

/// Whether a string holds a character.
pub fn contains_char(s: &str, c: char) -> (r: bool)
    ensures
        r == s@.contains(c),
{
    let x = chars_of(s);
    let mut i: usize = 0;
    while i < x.len()
        invariant
            x@ == s@,
            i <= x@.len(),
            forall|k: int| 0 <= k < i ==> x@[k] != c,
        decreases x@.len() - i,
    {
        if x[i] == c {
            return true;
        }
        i = i + 1;
    }
    false
}

// ---------------------------------------------------------------------------
// Trimming, lines and words
// ---------------------------------------------------------------------------

/// A string without its leading white space.
pub open spec fn trimmed_start(s: Seq<char>) -> Seq<char>
    decreases s.len(),
{
    if s.len() > 0 && is_white(s[0]) {
        trimmed_start(s.drop_first())
    } else {
        s
    }
}

/// A string without its trailing white space.
pub open spec fn trimmed_end(s: Seq<char>) -> Seq<char>
    decreases s.len(),
{
    if s.len() > 0 && is_white(s.last()) {
        trimmed_end(s.drop_last())
    } else {
        s
    }
}

/// A string without its leading and trailing white space.
pub open spec fn trimmed(s: Seq<char>) -> Seq<char> {
    trimmed_end(trimmed_start(s))
}

proof fn lemma_trimmed_start(s: Seq<char>, i: int)
    requires
        0 <= i <= s.len(),
        forall|k: int| 0 <= k < i ==> is_white(s[k]),
    ensures
        trimmed_start(s) == trimmed_start(s.skip(i)),
    decreases i,
{
    if i > 0 {
        assert(is_white(s[0]));
        assert forall|k: int| 0 <= k < i - 1 implies is_white(s.drop_first()[k]) by {
            assert(s.drop_first()[k] == s[k + 1]);
        }
        lemma_trimmed_start(s.drop_first(), i - 1);
        assert(s.drop_first().skip(i - 1) =~= s.skip(i));
    } else {
        assert(s.skip(0) =~= s);
    }
}

proof fn lemma_trimmed_end(s: Seq<char>, j: int)
    requires
        0 <= j <= s.len(),
        forall|k: int| j <= k < s.len() ==> is_white(s[k]),
    ensures
        trimmed_end(s) == trimmed_end(s.take(j)),
    decreases s.len() - j,
{
    if j < s.len() {
        assert(is_white(s[s.len() - 1]));
        lemma_trimmed_end(s.drop_last(), j);
        assert(s.drop_last().take(j) =~= s.take(j));
    } else {
        assert(s.take(j) =~= s);
    }
}

/// The bounds of the part of `x` that trimming keeps.
fn trim_bounds(x: &Vec<char>) -> (r: (usize, usize))
    ensures
        r.0 <= r.1 <= x@.len(),
        x@.subrange(r.0 as int, r.1 as int) == trimmed(x@),
{
    let mut i: usize = 0;
    while i < x.len() && white(x[i])
        invariant
            i <= x@.len(),
            forall|k: int| 0 <= k < i ==> is_white(x@[k]),
        decreases x@.len() - i,
    {
        i = i + 1;
    }
    proof {
        lemma_trimmed_start(x@, i as int);
        assert(trimmed_start(x@) == x@.skip(i as int));
    }
    let mut j: usize = x.len();
    while i < j && white(x[j - 1])
        invariant
            i <= j <= x@.len(),
            forall|k: int| j <= k < x@.len() ==> is_white(x@[k]),
        decreases j,
    {
        j = j - 1;
    }
    proof {
        let s = x@.skip(i as int);
        lemma_trimmed_end(s, j - i);
        assert(s.take(j - i) =~= x@.subrange(i as int, j as int));
        if j > i {
            assert(s.take(j - i).last() == x@[j - 1]);
        }
    }
    (i, j)
}

/// A string without its leading and trailing white space.
pub fn trim(s: &str) -> (r: String)
    ensures
        r@ == trimmed(s@),
{
    let x = chars_of(s);
    let (i, j) = trim_bounds(&x);
    text_of(&x, i, j)
}

/// A line without the carriage return before its line feed.
pub open spec fn without_return(line: Seq<char>) -> Seq<char> {
    if line.len() > 0 && line.last() == '\r' {
        line.drop_last()
    } else {
        line
    }
}

/// The lines of a text. A line feed ends a line, with the carriage return before it; the
/// last line needs no line feed, and nothing follows a final one.
pub open spec fn lines_of(s: Seq<char>) -> Seq<Seq<char>>
    decreases s.len(),
    via lines_of_decreases
{
    let n = first_of(s, '\n');
    if s.len() == 0 {
        Seq::empty()
    } else if n >= s.len() {
        seq![s]
    } else {
        seq![without_return(s.take(n))] + lines_of(s.skip(n + 1))
    }
}

#[via_fn]
proof fn lines_of_decreases(s: Seq<char>) {
    lemma_first_of_range(s, '\n');
}

/// The views of a list of strings.
pub open spec fn views(v: Seq<String>) -> Seq<Seq<char>> {
    Seq::new(v.len(), |i: int| v[i]@)
}

/// The view of a list that grew by one string.
pub proof fn lemma_views_push(v: Seq<String>, s: String)
    ensures
        views(v.push(s)) == views(v).push(s@),
{
    assert(views(v.push(s)) =~= views(v).push(s@));
}

/// The lines of a text.
pub fn lines(s: &str) -> (r: Vec<String>)
    ensures
        views(r@) == lines_of(s@),
{
    let x = chars_of(s);
    let mut out: Vec<String> = Vec::new();
    let mut start: usize = 0;
    proof {
        assert(x@.skip(0) =~= x@);
        assert(views(out@) =~= Seq::empty());
        assert(Seq::<Seq<char>>::empty() + lines_of(x@) =~= lines_of(x@));
    }
    while start < x.len()
        invariant
            start <= x@.len(),
            views(out@) + lines_of(x@.skip(start as int)) == lines_of(x@),
        decreases x@.len() - start,
    {
        let mut end: usize = start;
        while end < x.len() && x[end] != '\n'
            invariant
                start <= end <= x@.len(),
                forall|k: int| start <= k < end ==> x@[k] != '\n',
            decreases x@.len() - end,
        {
            end = end + 1;
        }
        let ghost rest = x@.skip(start as int);
        proof {
            assert forall|j: int| 0 <= j < end - start implies rest[j] != '\n' by {
                assert(rest[j] == x@[start + j]);
            }
            lemma_first_of(rest, '\n', end - start);
        }
        let ghost before_push = out@;
        if end == x.len() {
            let line = text_of(&x, start, end);
            proof {
                assert(line@ =~= rest);
                lemma_views_push(out@, line);
                assert(lines_of(rest) == seq![rest]);
                assert(x@.skip(end as int) =~= Seq::empty());
                assert(views(before_push).push(line@) + Seq::empty() =~= views(before_push)
                    + lines_of(rest));
            }
            out.push(line);
            start = end;
        } else {
            let stop: usize = if start < end && x[end - 1] == '\r' {
                end - 1
            } else {
                end
            };
            let line = text_of(&x, start, stop);
            proof {
                let taken = rest.take(end - start);
                assert(taken =~= x@.subrange(start as int, end as int));
                if start < end {
                    assert(taken.last() == x@[end - 1]);
                }
                assert(without_return(taken) =~= line@);
                lemma_views_push(out@, line);
                assert(rest.skip(end - start + 1) =~= x@.skip(end + 1));
                assert(views(before_push).push(line@) + lines_of(x@.skip(end + 1)) =~= views(
                    before_push,
                ) + lines_of(rest));
            }
            out.push(line);
            start = end + 1;
        }
    }
    proof {
        assert(x@.skip(start as int) =~= Seq::empty());
        assert(views(out@) + Seq::empty() =~= views(out@));
    }
    out
}

/// The position of the first white space in `s`, or the length where there is none.
pub open spec fn first_white(s: Seq<char>) -> int
    decreases s.len(),
{
    if s.len() == 0 || is_white(s[0]) {
        0
    } else {
        1 + first_white(s.drop_first())
    }
}

proof fn lemma_first_white(s: Seq<char>, k: int)
    requires
        0 <= k <= s.len(),
        k < s.len() ==> is_white(s[k]),
        forall|j: int| 0 <= j < k ==> !is_white(s[j]),
    ensures
        first_white(s) == k,
    decreases k,
{
    if k > 0 {
        assert(!is_white(s[0]));
        assert forall|j: int| 0 <= j < k - 1 implies !is_white(s.drop_first()[j]) by {
            assert(s.drop_first()[j] == s[j + 1]);
        }
        lemma_first_white(s.drop_first(), k - 1);
    }
}

proof fn lemma_first_white_range(s: Seq<char>)
    ensures
        0 <= first_white(s) <= s.len(),
    decreases s.len(),
{
    if s.len() > 0 && !is_white(s[0]) {
        lemma_first_white_range(s.drop_first());
    }
}

/// The words of a text: its maximal runs of characters that are no white space.
pub open spec fn words_of(s: Seq<char>) -> Seq<Seq<char>>
    decreases s.len(),
    via words_of_decreases
{
    if s.len() == 0 {
        Seq::empty()
    } else if is_white(s[0]) {
        words_of(s.drop_first())
    } else {
        seq![s.take(first_white(s))] + words_of(s.skip(first_white(s)))
    }
}

#[via_fn]
proof fn words_of_decreases(s: Seq<char>) {
    lemma_first_white_range(s);
    if s.len() > 0 {
        lemma_first_white_range(s.drop_first());
    }
}

/// The words of a text.
pub fn words(s: &str) -> (r: Vec<String>)
    ensures
        views(r@) == words_of(s@),
{
    let x = chars_of(s);
    let mut out: Vec<String> = Vec::new();
    let mut start: usize = 0;
    proof {
        assert(x@.skip(0) =~= x@);
        assert(views(out@) =~= Seq::empty());
        assert(Seq::<Seq<char>>::empty() + words_of(x@) =~= words_of(x@));
    }
    while start < x.len()
        invariant
            start <= x@.len(),
            views(out@) + words_of(x@.skip(start as int)) == words_of(x@),
        decreases x@.len() - start,
    {
        let ghost rest = x@.skip(start as int);
        proof {
            assert(rest[0] == x@[start as int]);
        }
        if white(x[start]) {
            proof {
                assert(rest.drop_first() =~= x@.skip(start + 1));
            }
            start = start + 1;
        } else {
            let mut end: usize = start;
            while end < x.len() && !white(x[end])
                invariant
                    start <= end <= x@.len(),
                    forall|k: int| start <= k < end ==> !is_white(x@[k]),
                decreases x@.len() - end,
            {
                end = end + 1;
            }
            let word = text_of(&x, start, end);
            proof {
                assert forall|j: int| 0 <= j < end - start implies !is_white(rest[j]) by {
                    assert(rest[j] == x@[start + j]);
                }
                if end < x@.len() {
                    assert(rest[end - start] == x@[end as int]);
                }
                lemma_first_white(rest, end - start);
                assert(rest.take(end - start) =~= word@);
                assert(rest.skip(end - start) =~= x@.skip(end as int));
                lemma_views_push(out@, word);
                assert(views(out@).push(word@) + words_of(x@.skip(end as int)) =~= views(out@)
                    + words_of(rest));
            }
            out.push(word);
            start = end;
        }
    }
    proof {
        assert(x@.skip(start as int) =~= Seq::empty());
        assert(views(out@) + Seq::empty() =~= views(out@));
    }
    out
}

// ---------------------------------------------------------------------------
// Joining
// ---------------------------------------------------------------------------

/// The parts one after another, with a separator between each two.
pub open spec fn joined(parts: Seq<Seq<char>>, sep: Seq<char>) -> Seq<char>
    decreases parts.len(),
{
    if parts.len() == 0 {
        Seq::empty()
    } else if parts.len() == 1 {
        parts[0]
    } else {
        joined(parts.drop_last(), sep) + sep + parts.last()
    }
}

/// The parts one after another, with a separator between each two.
pub fn join(parts: &Vec<String>, sep: &str) -> (r: String)
    ensures
        r@ == joined(views(parts@), sep@),
{
    let mut out = String::new();
    let mut i: usize = 0;
    proof {
        assert(views(parts@).take(0) =~= Seq::empty());
    }
    while i < parts.len()
        invariant
            i <= parts@.len(),
            out@ == joined(views(parts@).take(i as int), sep@),
        decreases parts@.len() - i,
    {
        proof {
            let next = views(parts@).take(i + 1);
            assert(next.drop_last() =~= views(parts@).take(i as int));
            assert(next.last() == parts@[i as int]@);
        }
        if i > 0 {
            out.append(sep);
        }
        out.append(parts[i].as_str());
        i = i + 1;
        proof {
            if i == 1 {
                assert(out@ =~= parts@[0]@);
            }
        }
    }
    proof {
        assert(views(parts@).take(i as int) =~= views(parts@));
    }
    out
}

/// The parts of `s` between the occurrences of `sep`.
pub open spec fn split_of(s: Seq<char>, sep: char) -> Seq<Seq<char>>
    decreases s.len(),
    via split_of_decreases
{
    let n = first_of(s, sep);
    if n >= s.len() {
        seq![s]
    } else {
        seq![s.take(n)] + split_of(s.skip(n + 1), sep)
    }
}

#[via_fn]
proof fn split_of_decreases(s: Seq<char>, sep: char) {
    lemma_first_of_range(s, sep);
}

/// The parts of a string between the occurrences of a character.
pub fn split(s: &str, sep: char) -> (r: Vec<String>)
    ensures
        views(r@) == split_of(s@, sep),
{
    let x = chars_of(s);
    let mut out: Vec<String> = Vec::new();
    let mut start: usize = 0;
    let mut end: usize = 0;
    proof {
        assert(x@.skip(0) =~= x@);
        assert(views(out@) =~= Seq::empty());
        assert(Seq::<Seq<char>>::empty() + split_of(x@, sep) =~= split_of(x@, sep));
    }
    while end < x.len()
        invariant
            start <= end <= x@.len(),
            forall|k: int| start <= k < end ==> x@[k] != sep,
            views(out@) + split_of(x@.skip(start as int), sep) == split_of(x@, sep),
        decreases x@.len() - end,
    {
        if x[end] == sep {
            let part = text_of(&x, start, end);
            proof {
                let rest = x@.skip(start as int);
                assert forall|j: int| 0 <= j < end - start implies rest[j] != sep by {
                    assert(rest[j] == x@[start + j]);
                }
                assert(rest[end - start] == x@[end as int]);
                lemma_first_of(rest, sep, end - start);
                assert(rest.take(end - start) =~= part@);
                assert(rest.skip(end - start + 1) =~= x@.skip(end + 1));
                lemma_views_push(out@, part);
                assert(views(out@).push(part@) + split_of(x@.skip(end + 1), sep) =~= views(out@)
                    + split_of(rest, sep));
            }
            out.push(part);
            start = end + 1;
        }
        end = end + 1;
    }
    let part = text_of(&x, start, end);
    proof {
        let rest = x@.skip(start as int);
        assert forall|j: int| 0 <= j < end - start implies rest[j] != sep by {
            assert(rest[j] == x@[start + j]);
        }
        lemma_first_of(rest, sep, end - start);
        assert(rest =~= part@);
        lemma_views_push(out@, part);
        assert(views(out@).push(part@) =~= views(out@) + split_of(rest, sep));
    }
    out.push(part);
    out
}

/// A string with each `from` replaced by `to`.
pub open spec fn replaced(s: Seq<char>, from: char, to: Seq<char>) -> Seq<char>
    decreases s.len(),
{
    if s.len() == 0 {
        Seq::empty()
    } else {
        replaced(s.drop_last(), from, to) + (if s.last() == from {
            to
        } else {
            seq![s.last()]
        })
    }
}

/// A string with each occurrence of a character replaced.
pub fn replace(s: &str, from: char, to: &str) -> (r: String)
    ensures
        r@ == replaced(s@, from, to@),
{
    let x = chars_of(s);
    let mut out = String::new();
    let mut i: usize = 0;
    while i < x.len()
        invariant
            x@ == s@,
            i <= x@.len(),
            out@ == replaced(x@.take(i as int), from, to@),
        decreases x@.len() - i,
    {
        proof {
            assert(x@.take(i + 1).drop_last() =~= x@.take(i as int));
        }
        let ghost done = out@;
        if x[i] == from {
            out.append(to);
        } else {
            out.push(x[i]);
            proof {
                assert(done.push(x@[i as int]) =~= done + seq![x@[i as int]]);
            }
        }
        i = i + 1;
    }
    proof {
        assert(x@.take(i as int) =~= x@);
    }
    out
}

/// `n` copies of a character.
pub open spec fn repeated(c: char, n: nat) -> Seq<char> {
    Seq::new(n, |i: int| c)
}

/// `n` copies of a character.
pub fn repeat(c: char, n: usize) -> (r: String)
    ensures
        r@ == repeated(c, n as nat),
{
    let mut out = String::new();
    let mut i: usize = 0;
    while i < n
        invariant
            i <= n,
            out@ == repeated(c, i as nat),
        decreases n - i,
    {
        out.push(c);
        i = i + 1;
        proof {
            assert(repeated(c, i as nat) =~= repeated(c, (i - 1) as nat).push(c));
        }
    }
    out
}

/// A string filled up with blanks on the right to a width in characters.
pub open spec fn padded(s: Seq<char>, width: nat) -> Seq<char> {
    if s.len() >= width {
        s
    } else {
        s + repeated(' ', (width - s.len()) as nat)
    }
}

/// A string filled up with blanks on the right to a width in characters.
pub fn pad(s: &str, width: usize) -> (r: String)
    ensures
        r@ == padded(s@, width as nat),
{
    let n: usize = s.unicode_len();
    let mut out = s.to_owned();
    if n < width {
        let fill = repeat(' ', width - n);
        out.append(fill.as_str());
    }
    out
}

/// A string filled up with blanks on the left to a width in characters.
pub open spec fn padded_left(s: Seq<char>, width: nat) -> Seq<char> {
    if s.len() >= width {
        s
    } else {
        repeated(' ', (width - s.len()) as nat) + s
    }
}

/// A string filled up with blanks on the left to a width in characters.
pub fn pad_left(s: &str, width: usize) -> (r: String)
    ensures
        r@ == padded_left(s@, width as nat),
{
    let n: usize = s.unicode_len();
    if n < width {
        let mut out = repeat(' ', width - n);
        out.append(s);
        out
    } else {
        s.to_owned()
    }
}

/// The first `n` characters of a string, or all of it where it has fewer.
pub open spec fn first_chars(s: Seq<char>, n: int) -> Seq<char> {
    if s.len() <= n {
        s
    } else {
        s.take(n)
    }
}

/// The first characters of a string.
pub fn take_chars(s: &str, n: usize) -> (r: String)
    ensures
        r@ == first_chars(s@, n as int),
{
    let x = chars_of(s);
    if x.len() <= n {
        s.to_owned()
    } else {
        let r = text_of(&x, 0, n);
        proof {
            assert(x@.subrange(0, n as int) =~= x@.take(n as int));
        }
        r
    }
}

// ---------------------------------------------------------------------------
// Numbers
// ---------------------------------------------------------------------------

/// The decimal digit with a value below ten.
pub open spec fn digit(d: int) -> char
    recommends
        0 <= d < 10,
{
    if d == 0 {
        '0'
    } else if d == 1 {
        '1'
    } else if d == 2 {
        '2'
    } else if d == 3 {
        '3'
    } else if d == 4 {
        '4'
    } else if d == 5 {
        '5'
    } else if d == 6 {
        '6'
    } else if d == 7 {
        '7'
    } else if d == 8 {
        '8'
    } else {
        '9'
    }
}

fn digit_char(d: u64) -> (r: char)
    requires
        d < 10,
    ensures
        r == digit(d as int),
{
    match d {
        0 => '0',
        1 => '1',
        2 => '2',
        3 => '3',
        4 => '4',
        5 => '5',
        6 => '6',
        7 => '7',
        8 => '8',
        _ => '9',
    }
}

/// A number in decimal digits.
pub open spec fn decimal(n: nat) -> Seq<char>
    decreases n,
{
    if n < 10 {
        seq![digit(n as int)]
    } else {
        decimal(n / 10).push(digit((n % 10) as int))
    }
}

/// A number in decimal digits.
pub fn number(n: u64) -> (r: String)
    ensures
        r@ == decimal(n as nat),
    decreases n,
{
    if n < 10 {
        let mut out = String::new();
        out.push(digit_char(n));
        proof {
            assert(out@ =~= seq![digit(n as int)]);
        }
        out
    } else {
        let mut out = number(n / 10);
        out.push(digit_char(n % 10));
        out
    }
}

/// A number of any size in decimal digits.
pub fn large(n: u128) -> (r: String)
    ensures
        r@ == decimal(n as nat),
    decreases n,
{
    if n <= 0xffff_ffff_ffff_ffff {
        number(n as u64)
    } else {
        let mut out = large(n / 10);
        out.push(digit_char((n % 10) as u64));
        out
    }
}

/// A size in decimal digits.
pub fn size(n: usize) -> (r: String)
    ensures
        r@ == decimal(n as nat),
{
    number(n as u64)
}

/// A signed number in decimal digits, with a minus sign where it is below zero.
pub open spec fn signed_decimal(n: int) -> Seq<char> {
    if n < 0 {
        seq!['-'] + decimal((-n) as nat)
    } else {
        decimal(n as nat)
    }
}

/// A signed number in decimal digits.
pub fn signed(n: i64) -> (r: String)
    ensures
        r@ == signed_decimal(n as int),
{
    if n < 0 {
        let m: i128 = -(n as i128);
        let digits = number(m as u64);
        let mut out = String::new();
        out.push('-');
        out.append(digits.as_str());
        proof {
            assert(out@ =~= seq!['-'] + decimal((-n) as nat));
        }
        out
    } else {
        number(n as u64)
    }
}

/// A number in at least `width` decimal digits, with leading zeros.
pub open spec fn zero_filled(n: nat, width: nat) -> Seq<char> {
    let d = decimal(n);
    if d.len() >= width {
        d
    } else {
        repeated('0', (width - d.len()) as nat) + d
    }
}

/// A number in at least `width` decimal digits.
pub fn zero_fill(n: u64, width: usize) -> (r: String)
    ensures
        r@ == zero_filled(n as nat, width as nat),
{
    let d = number(n);
    let k: usize = d.as_str().unicode_len();
    if k < width {
        let mut out = repeat('0', width - k);
        out.append(d.as_str());
        out
    } else {
        d
    }
}

/// Whether a character is a decimal digit of ASCII.
pub open spec fn is_digit(c: char) -> bool {
    '0' <= c <= '9'
}

/// Whether a character is a decimal digit of ASCII.
pub fn ascii_digit(c: char) -> (r: bool)
    ensures
        r == is_digit(c),
{
    '0' <= c && c <= '9'
}

/// The value that a string of decimal digits has.
pub open spec fn digits_value(s: Seq<char>) -> nat
    decreases s.len(),
{
    if s.len() == 0 {
        0
    } else {
        digits_value(s.drop_last()) * 10 + (s.last() as nat - '0' as nat) as nat
    }
}

/// All characters of a string are decimal digits.
pub open spec fn all_digits(s: Seq<char>) -> bool {
    forall|i: int| 0 <= i < s.len() ==> is_digit(#[trigger] s[i])
}

/// The number that a string spells: an optional plus sign and at least one decimal digit,
/// and nothing else; nothing where the number lies above `max`.
pub open spec fn number_of(s: Seq<char>, max: nat) -> Option<nat> {
    let t = if s.len() > 0 && s[0] == '+' {
        s.drop_first()
    } else {
        s
    };
    if t.len() > 0 && all_digits(t) && digits_value(t) <= max {
        Some(digits_value(t))
    } else {
        None
    }
}

/// A longer string of digits has no smaller value.
pub proof fn lemma_digits_value_grows(s: Seq<char>, k: int)
    requires
        0 <= k <= s.len(),
        all_digits(s),
    ensures
        digits_value(s.take(k)) <= digits_value(s),
    decreases s.len() - k,
{
    if k < s.len() {
        assert(s.take(k + 1).drop_last() =~= s.take(k));
        assert(is_digit(s[k]));
        lemma_digits_value_grows(s, k + 1);
        assert(s.take(k + 1).last() == s[k]);
        assert(digits_value(s.take(k + 1)) == digits_value(s.take(k)) * 10 + (s[k] as nat
            - '0' as nat) as nat);
    } else {
        assert(s.take(k) =~= s);
    }
}

/// The number that the characters `from..` spell in decimal digits, where it is not above `max`.
fn digits_from(x: &Vec<char>, from: usize, max: u64) -> (r: Option<u64>)
    requires
        from <= x@.len(),
    ensures
        ({
            let t = x@.skip(from as int);
            r == (if t.len() > 0 && all_digits(t) && digits_value(t) <= max {
                Some(digits_value(t) as u64)
            } else {
                None::<u64>
            })
        }),
{
    let ghost t = x@.skip(from as int);
    if from == x.len() {
        return None;
    }
    let mut value: u64 = 0;
    let mut i: usize = from;
    proof {
        assert(t.take(0) =~= Seq::empty());
    }
    while i < x.len()
        invariant
            from <= i <= x@.len(),
            t == x@.skip(from as int),
            value <= max,
            value == digits_value(t.take(i - from)),
            forall|k: int| 0 <= k < i - from ==> is_digit(#[trigger] t[k]),
        decreases x@.len() - i,
    {
        proof {
            assert(t[i - from] == x@[i as int]);
            assert(t.take(i - from + 1).drop_last() =~= t.take(i - from));
            assert(t.take(i - from + 1).last() == x@[i as int]);
        }
        if !ascii_digit(x[i]) {
            return None;
        }
        let d: u64 = x[i] as u64 - '0' as u64;
        let next: u128 = value as u128 * 10 + d as u128;
        if next > max as u128 {
            proof {
                if all_digits(t) {
                    lemma_digits_value_grows(t, i - from + 1);
                }
            }
            return None;
        }
        value = next as u64;
        i = i + 1;
    }
    proof {
        assert(t.take(i - from) =~= t);
    }
    Some(value)
}

/// The number that a string spells, where it is not above `max`.
pub fn parse_number(s: &str, max: u64) -> (r: Option<u64>)
    ensures
        match r {
            Some(n) => number_of(s@, max as nat) == Some(n as nat),
            None => number_of(s@, max as nat) is None,
        },
{
    let x = chars_of(s);
    let from: usize = if x.len() > 0 && x[0] == '+' {
        1
    } else {
        0
    };
    proof {
        if from == 1 {
            assert(x@.skip(1) =~= x@.drop_first());
        } else {
            assert(x@.skip(0) =~= x@);
        }
    }
    digits_from(&x, from, max)
}

// ---------------------------------------------------------------------------
// Bytes
// ---------------------------------------------------------------------------

/// The number of bytes that a character takes in UTF-8.
pub open spec fn width(c: char) -> int {
    if (c as int) < 0x80 {
        1
    } else if (c as int) < 0x800 {
        2
    } else if (c as int) < 0x10000 {
        3
    } else {
        4
    }
}

fn char_width(c: char) -> (r: usize)
    ensures
        r == width(c),
{
    if c <= '\u{7f}' {
        1
    } else if c <= '\u{7ff}' {
        2
    } else if c <= '\u{ffff}' {
        3
    } else {
        4
    }
}

/// The number of bytes that a string takes in UTF-8.
pub open spec fn byte_len(s: Seq<char>) -> int
    decreases s.len(),
{
    if s.len() == 0 {
        0
    } else {
        byte_len(s.drop_last()) + width(s.last())
    }
}

proof fn lemma_encoded_push(s: Seq<char>, c: char)
    ensures
        vstd::utf8::encode_utf8(s.push(c)).len() == vstd::utf8::encode_utf8(s).len() + width(c),
    decreases s.len(),
{
    broadcast use vstd::utf8::char_is_scalar;

    assert(vstd::utf8::is_scalar(c as u32));
    if s.len() == 0 {
        assert(s.push(c).drop_first() =~= Seq::empty());
        assert(vstd::utf8::encode_utf8(s.push(c).drop_first()).len() == 0);
    } else {
        lemma_encoded_push(s.drop_first(), c);
        assert(s.push(c).drop_first() =~= s.drop_first().push(c));
    }
}

proof fn lemma_byte_len(s: Seq<char>)
    ensures
        byte_len(s) == vstd::utf8::encode_utf8(s).len(),
    decreases s.len(),
{
    if s.len() > 0 {
        lemma_byte_len(s.drop_last());
        lemma_encoded_push(s.drop_last(), s.last());
        assert(s.drop_last().push(s.last()) =~= s);
    }
}

/// A string takes at least as many bytes as it has characters, and a longer one takes more.
pub proof fn lemma_byte_len_grows(s: Seq<char>, k: int)
    requires
        0 <= k <= s.len(),
    ensures
        byte_len(s.take(k)) + (s.len() - k) <= byte_len(s),
        k <= byte_len(s.take(k)),
    decreases s.len(),
{
    if k < s.len() {
        lemma_byte_len_grows(s.drop_last(), k);
        assert(s.drop_last().take(k) =~= s.take(k));
    } else {
        assert(s.take(k) =~= s);
        if s.len() > 0 {
            lemma_byte_len_grows(s.drop_last(), k - 1);
            assert(s.drop_last().take(k - 1) =~= s.drop_last());
        }
    }
}

/// The number of bytes that a string takes in UTF-8.
pub fn bytes(s: &str) -> (r: usize)
    ensures
        r == byte_len(s@),
{
    proof {
        lemma_byte_len(s@);
    }
    s.as_bytes().len()
}

/// The number of whole characters at the beginning of a string that fit into `n` bytes.
pub open spec fn chars_within(s: Seq<char>, n: int) -> int
    decreases s.len(),
{
    if s.len() == 0 || byte_len(s) <= n {
        s.len() as int
    } else {
        chars_within(s.drop_last(), n)
    }
}

/// The longest beginning of a string that fits into `n` bytes.
pub open spec fn within_bytes(s: Seq<char>, n: int) -> Seq<char> {
    s.take(chars_within(s, n))
}

/// The byte position `n` lies between two characters, or at an end.
pub open spec fn on_boundary(s: Seq<char>, n: int) -> bool {
    byte_len(within_bytes(s, n)) == n
}

/// What `chars_within` gives.
pub proof fn lemma_chars_within(s: Seq<char>, n: int, k: int)
    requires
        0 <= n,
        0 <= k <= s.len(),
        byte_len(s.take(k)) <= n,
        k < s.len() ==> n < byte_len(s.take(k + 1)),
    ensures
        chars_within(s, n) == k,
    decreases s.len(),
{
    if k < s.len() {
        lemma_byte_len_grows(s, k + 1);
        assert(s.drop_last().take(k) =~= s.take(k));
        if k + 1 < s.len() {
            assert(s.drop_last().take(k + 1) =~= s.take(k + 1));
        }
        lemma_chars_within(s.drop_last(), n, k);
    } else {
        assert(s.take(k) =~= s);
    }
}

/// The bounds of `chars_within`.
pub proof fn lemma_within_fits(s: Seq<char>, n: int)
    requires
        0 <= n,
    ensures
        0 <= chars_within(s, n) <= s.len(),
        byte_len(within_bytes(s, n)) <= n,
    decreases s.len(),
{
    if s.len() == 0 || byte_len(s) <= n {
        assert(s.take(s.len() as int) =~= s);
    } else {
        lemma_within_fits(s.drop_last(), n);
        let k = chars_within(s.drop_last(), n);
        assert(s.drop_last().take(k) =~= s.take(k));
    }
}

/// The longest beginning of a string that fits into `n` bytes, and the bytes it takes.
pub fn cut_bytes(s: &str, n: usize) -> (r: (String, usize))
    ensures
        r.0@ == within_bytes(s@, n as int),
        r.1 == byte_len(r.0@),
        r.1 <= n,
{
    let x = chars_of(s);
    let mut k: usize = 0;
    let mut used: usize = 0;
    proof {
        assert(x@.take(0) =~= Seq::empty());
    }
    while k < x.len() && char_width(x[k]) <= n - used
        invariant
            x@ == s@,
            k <= x@.len(),
            used <= n,
            used == byte_len(x@.take(k as int)),
        decreases x@.len() - k,
    {
        proof {
            assert(x@.take(k + 1).drop_last() =~= x@.take(k as int));
            assert(x@.take(k + 1).last() == x@[k as int]);
        }
        used = used + char_width(x[k]);
        k = k + 1;
    }
    proof {
        if k < x@.len() {
            assert(x@.take(k + 1).drop_last() =~= x@.take(k as int));
            assert(x@.take(k + 1).last() == x@[k as int]);
        }
        lemma_chars_within(x@, n as int, k as int);
        assert(x@.subrange(0, k as int) =~= x@.take(k as int));
    }
    (text_of(&x, 0, k), used)
}

// ---------------------------------------------------------------------------
// Lines of output
// ---------------------------------------------------------------------------

/// Two texts, one after the other.
pub fn cat2(a: &str, b: &str) -> (r: String)
    ensures
        r@ == a@ + b@,
{
    let mut out = a.to_owned();
    out.append(b);
    out
}

/// Three texts, one after the other.
pub fn cat3(a: &str, b: &str, c: &str) -> (r: String)
    ensures
        r@ == a@ + b@ + c@,
{
    let mut out = cat2(a, b);
    out.append(c);
    out
}

/// Four texts, one after the other.
pub fn cat4(a: &str, b: &str, c: &str, d: &str) -> (r: String)
    ensures
        r@ == a@ + b@ + c@ + d@,
{
    let mut out = cat3(a, b, c);
    out.append(d);
    out
}

/// Five texts, one after the other.
pub fn cat5(a: &str, b: &str, c: &str, d: &str, e: &str) -> (r: String)
    ensures
        r@ == a@ + b@ + c@ + d@ + e@,
{
    let mut out = cat4(a, b, c, d);
    out.append(e);
    out
}

/// Puts a line behind the others.
pub fn say(out: &mut Vec<String>, line: &str)
    ensures
        views(final(out)@) == views(old(out)@).push(line@),
{
    let owned = line.to_owned();
    proof {
        lemma_views_push(out@, owned);
    }
    out.push(owned);
}

/// Puts a line of two texts behind the others.
pub fn say2(out: &mut Vec<String>, a: &str, b: &str)
    ensures
        views(final(out)@) == views(old(out)@).push(a@ + b@),
{
    let line = cat2(a, b);
    say(out, line.as_str());
}

/// Puts a line of three texts behind the others.
pub fn say3(out: &mut Vec<String>, a: &str, b: &str, c: &str)
    ensures
        views(final(out)@) == views(old(out)@).push(a@ + b@ + c@),
{
    let line = cat3(a, b, c);
    say(out, line.as_str());
}

/// Puts a line of four texts behind the others.
pub fn say4(out: &mut Vec<String>, a: &str, b: &str, c: &str, d: &str)
    ensures
        views(final(out)@) == views(old(out)@).push(a@ + b@ + c@ + d@),
{
    let line = cat4(a, b, c, d);
    say(out, line.as_str());
}

/// Puts a line of five texts behind the others.
pub fn say5(out: &mut Vec<String>, a: &str, b: &str, c: &str, d: &str, e: &str)
    ensures
        views(final(out)@) == views(old(out)@).push(a@ + b@ + c@ + d@ + e@),
{
    let line = cat5(a, b, c, d, e);
    say(out, line.as_str());
}

/// Puts one line for each item behind the others. `write` gives the line `g` of an item.
pub(crate) fn say_each<T, F: Fn(&T) -> String>(
    out: &mut Vec<String>,
    items: &Vec<T>,
    write: F,
    Ghost(g): Ghost<spec_fn(T) -> Seq<char>>,
)
    requires
        forall|i: int| 0 <= i < items@.len() ==> call_requires(write, (&(#[trigger] items@[i]),)),
        forall|a: &T, o: String| #[trigger] call_ensures(write, (a,), o) ==> o@ == g(*a),
    ensures
        views(final(out)@) == views(old(out)@) + items@.map_values(g),
{
    let ghost start = views(out@);
    let ghost all = items@.map_values(g);
    let mut i: usize = 0;
    proof {
        assert(start + all.take(0) =~= start);
    }
    while i < items.len()
        invariant
            i <= items@.len(),
            all == items@.map_values(g),
            views(out@) == start + all.take(i as int),
            forall|i: int|
                0 <= i < items@.len() ==> call_requires(write, (&(#[trigger] items@[i]),)),
            forall|a: &T, o: String| #[trigger] call_ensures(write, (a,), o) ==> o@ == g(*a),
        decreases items@.len() - i,
    {
        let line = write(&items[i]);
        proof {
            assert(all.take(i + 1) =~= all.take(i as int).push(all[i as int]));
            lemma_views_push(out@, line);
            assert(views(out@.push(line)) =~= start + all.take(i + 1));
        }
        out.push(line);
        i = i + 1;
    }
    proof {
        assert(all.take(i as int) =~= all);
    }
}

/// The lines that `g` gives for each item, one after another.
pub open spec fn spread<T>(items: Seq<T>, g: spec_fn(T) -> Seq<Seq<char>>) -> Seq<Seq<char>>
    decreases items.len(),
{
    if items.len() == 0 {
        Seq::empty()
    } else {
        spread(items.drop_last(), g) + g(items.last())
    }
}

/// Puts some lines for each item behind the others. `write` gives the lines `g` of an item.
pub(crate) fn say_all<T, F: Fn(&T) -> Vec<String>>(
    out: &mut Vec<String>,
    items: &Vec<T>,
    write: F,
    Ghost(g): Ghost<spec_fn(T) -> Seq<Seq<char>>>,
)
    requires
        forall|i: int| 0 <= i < items@.len() ==> call_requires(write, (&(#[trigger] items@[i]),)),
        forall|a: &T, o: Vec<String>| #[trigger]
            call_ensures(write, (a,), o) ==> views(o@) == g(*a),
    ensures
        views(final(out)@) == views(old(out)@) + spread(items@, g),
{
    let ghost start = views(out@);
    let mut i: usize = 0;
    proof {
        assert(items@.take(0) =~= Seq::empty());
        assert(start + spread(items@.take(0), g) =~= start);
    }
    while i < items.len()
        invariant
            i <= items@.len(),
            views(out@) == start + spread(items@.take(i as int), g),
            forall|i: int|
                0 <= i < items@.len() ==> call_requires(write, (&(#[trigger] items@[i]),)),
            forall|a: &T, o: Vec<String>| #[trigger]
                call_ensures(write, (a,), o) ==> views(o@) == g(*a),
        decreases items@.len() - i,
    {
        let more = write(&items[i]);
        let ghost so_far = views(out@);
        say_more(out, more);
        proof {
            let next = items@.take(i + 1);
            assert(next.drop_last() =~= items@.take(i as int));
            assert(next.last() == items@[i as int]);
            assert(so_far + g(items@[i as int]) =~= start + spread(next, g));
        }
        i = i + 1;
    }
    proof {
        assert(items@.take(i as int) =~= items@);
    }
}

/// Puts lines behind the others.
pub fn say_more(out: &mut Vec<String>, more: Vec<String>)
    ensures
        views(final(out)@) == views(old(out)@) + views(more@),
{
    let mut more = more;
    proof {
        assert(views(out@ + more@) =~= views(out@) + views(more@));
    }
    out.append(&mut more);
}

/// The lines that `g` gives for each item and its place, one after another.
pub open spec fn spread_numbered<T>(
    items: Seq<T>,
    g: spec_fn(int, T) -> Seq<Seq<char>>,
) -> Seq<Seq<char>>
    decreases items.len(),
{
    if items.len() == 0 {
        Seq::empty()
    } else {
        spread_numbered(items.drop_last(), g) + g(items.len() - 1, items.last())
    }
}

/// Puts some lines for each item behind the others. `write` gives the lines `g` of an item and
/// its place.
pub(crate) fn say_numbered<T, F: Fn(usize, &T) -> Vec<String>>(
    out: &mut Vec<String>,
    items: &Vec<T>,
    write: F,
    Ghost(g): Ghost<spec_fn(int, T) -> Seq<Seq<char>>>,
)
    requires
        forall|i: usize|
            0 <= i < items@.len() ==> #[trigger] call_requires(write, (i, &items@[i as int])),
        forall|i: usize, a: &T, o: Vec<String>| #[trigger]
            call_ensures(write, (i, a), o) ==> views(o@) == g(i as int, *a),
    ensures
        views(final(out)@) == views(old(out)@) + spread_numbered(items@, g),
{
    let ghost start = views(out@);
    let mut i: usize = 0;
    proof {
        assert(items@.take(0) =~= Seq::empty());
        assert(start + spread_numbered(items@.take(0), g) =~= start);
    }
    while i < items.len()
        invariant
            i <= items@.len(),
            views(out@) == start + spread_numbered(items@.take(i as int), g),
            forall|i: usize|
                0 <= i < items@.len() ==> #[trigger] call_requires(write, (i, &items@[i as int])),
            forall|i: usize, a: &T, o: Vec<String>| #[trigger]
                call_ensures(write, (i, a), o) ==> views(o@) == g(i as int, *a),
        decreases items@.len() - i,
    {
        let more = write(i, &items[i]);
        let ghost so_far = views(out@);
        say_more(out, more);
        proof {
            let next = items@.take(i + 1);
            assert(next.drop_last() =~= items@.take(i as int));
            assert(next.last() == items@[i as int]);
            assert(so_far + g(i as int, items@[i as int]) =~= start + spread_numbered(next, g));
        }
        i = i + 1;
    }
    proof {
        assert(items@.take(i as int) =~= items@);
    }
}

// ---------------------------------------------------------------------------
// Letter case
// ---------------------------------------------------------------------------

/// A text of ASCII characters alone.
pub open spec fn is_ascii_text(s: Seq<char>) -> bool {
    forall|i: int| 0 <= i < s.len() ==> (#[trigger] s[i]) as u32 <= 127
}

/// The small letter of an ASCII capital; any other character itself.
pub open spec fn small_letter(c: char) -> char {
    if 'A' <= c && c <= 'Z' {
        (c as u32 + 32) as char
    } else {
        c
    }
}

/// A text with small letters for its ASCII capitals.
pub open spec fn small_letters(s: Seq<char>) -> Seq<char> {
    Seq::new(s.len(), |i: int| small_letter(s[i]))
}

/// What `str::to_lowercase` makes of a string.
pub uninterp spec fn lowercase(s: Seq<char>) -> Seq<char>;

/// `str::to_lowercase`: the lowercase equivalent of a string by Unicode's tables. The result
/// is a function of the string alone. Of a string of ASCII characters each capital becomes its
/// small letter and the rest stays; what becomes of other characters is left to those tables.
#[verifier::external_body]
pub(crate) fn to_lowercase(s: &str) -> (r: String)
    ensures
        r@ == lowercase(s@),
        is_ascii_text(s@) ==> r@ == small_letters(s@),
{
    s.to_lowercase()
}

/// What `str::to_uppercase` makes of a string.
pub uninterp spec fn uppercase(s: Seq<char>) -> Seq<char>;

/// `str::to_uppercase`: the uppercase equivalent of a string by Unicode's tables. The result
/// is a function of the string alone; which one is left to those tables.
#[verifier::external_body]
pub(crate) fn to_uppercase(s: &str) -> (r: String)
    ensures
        r@ == uppercase(s@),
{
    s.to_uppercase()
}

// ---------------------------------------------------------------------------
// Bytes
// ---------------------------------------------------------------------------

/// The text that some bytes stand for, as `String::from_utf8` of the standard library reads them:
/// some text where the bytes are valid UTF-8, and none where they are not.
#[verifier::external_body]
pub(crate) fn from_utf8(bytes: Vec<u8>) -> (r: Option<String>)
    ensures
        match r {
            Some(s) => valid_utf8(bytes@) && s@ == decode_utf8(bytes@),
            None => !valid_utf8(bytes@),
        },
{
    String::from_utf8(bytes).ok()
}

// ---------------------------------------------------------------------------
// What texts are made of
// ---------------------------------------------------------------------------

/// Trimming takes the white space around a text and nothing of the text itself.
pub proof fn trimming_takes_white_alone(before: Seq<char>, core: Seq<char>, after: Seq<char>)
    requires
        forall|k: int| 0 <= k < before.len() ==> is_white(#[trigger] before[k]),
        forall|k: int| 0 <= k < after.len() ==> is_white(#[trigger] after[k]),
        core.len() > 0 ==> !is_white(core[0]) && !is_white(core.last()),
    ensures
        trimmed(before + core + after) == core,
{
    let s = before + core + after;
    if core.len() == 0 {
        let n = s.len() as int;
        assert forall|k: int| 0 <= k < n implies is_white(s[k]) by {
            if k < before.len() {
                assert(s[k] == before[k]);
            } else {
                assert(s[k] == after[k - before.len()]);
            }
        }
        lemma_trimmed_start(s, n);
        assert(s.skip(n) =~= Seq::empty());
        assert(trimmed(s) =~= core);
    } else {
        assert forall|k: int| 0 <= k < before.len() implies is_white(s[k]) by {
            assert(s[k] == before[k]);
        }
        lemma_trimmed_start(s, before.len() as int);
        let t = core + after;
        assert(s.skip(before.len() as int) =~= t);
        assert(t[0] == core[0]);
        assert(trimmed_start(s) == t);
        assert forall|k: int| core.len() <= k < t.len() implies is_white(t[k]) by {
            assert(t[k] == after[k - core.len()]);
        }
        lemma_trimmed_end(t, core.len() as int);
        assert(t.take(core.len() as int) =~= core);
    }
}

/// Blanks, tabs and the ends of lines are white space; letters, digits and signs of ASCII are not.
pub proof fn blanks_are_white(c: char)
    ensures
        c == ' ' || c == '\t' || c == '\n' || c == '\r' ==> is_white(c),
        '!' <= c && c <= '~' ==> !is_white(c),
{
}

/// A word and white space behind it give the word, and the words of the rest follow; white space in
/// front changes nothing.
pub proof fn words_stand_between_white(word: Seq<char>, c: char, rest: Seq<char>)
    requires
        word.len() > 0,
        forall|k: int| 0 <= k < word.len() ==> !is_white(#[trigger] word[k]),
        is_white(c),
    ensures
        words_of(Seq::empty()) == Seq::<Seq<char>>::empty(),
        words_of(word) == seq![word],
        words_of(word + seq![c] + rest) == seq![word] + words_of(rest),
        words_of(seq![c] + rest) == words_of(rest),
{
    let n = word.len() as int;
    let s = word + seq![c] + rest;
    assert forall|j: int| 0 <= j < n implies !is_white(s[j]) by {
        assert(s[j] == word[j]);
    }
    assert(s[n] == c);
    lemma_first_white(s, n);
    assert(s.take(n) =~= word);
    assert(s.skip(n) =~= seq![c] + rest);
    let t = seq![c] + rest;
    assert(t[0] == c);
    assert(t.drop_first() =~= rest);
    assert(s[0] == word[0]);
    assert(words_of(s) == seq![s.take(n)] + words_of(s.skip(n)));
    assert forall|j: int| 0 <= j < n implies !is_white(word[j]) by {}
    lemma_first_white(word, n);
    assert(word.take(n) =~= word);
    assert(word.skip(n) =~= Seq::empty());
    assert(words_of(word) == seq![word.take(n)] + words_of(word.skip(n)));
    assert(words_of(word.skip(n)) =~= Seq::empty());
    assert(words_of(word) =~= seq![word]);
}

/// A part without the separator and the separator behind it give the part, and the parts of the rest
/// follow.
pub proof fn parts_stand_between_separators(part: Seq<char>, sep: char, rest: Seq<char>)
    requires
        forall|k: int| 0 <= k < part.len() ==> #[trigger] part[k] != sep,
    ensures
        split_of(part, sep) == seq![part],
        split_of(part + seq![sep] + rest, sep) == seq![part] + split_of(rest, sep),
{
    let n = part.len() as int;
    let s = part + seq![sep] + rest;
    assert forall|j: int| 0 <= j < n implies s[j] != sep by {
        assert(s[j] == part[j]);
    }
    assert(s[n] == sep);
    lemma_first_of(s, sep, n);
    assert(s.take(n) =~= part);
    assert(s.skip(n + 1) =~= rest);
    assert forall|j: int| 0 <= j < n implies part[j] != sep by {}
    lemma_first_of(part, sep, n);
}

/// A line feed ends a line, and a carriage return right before it is no part of the line; the lines
/// of the rest follow. A text without a line feed is one line, and nothing is none.
pub proof fn lines_end_with_feeds(line: Seq<char>, rest: Seq<char>)
    requires
        forall|k: int| 0 <= k < line.len() ==> #[trigger] line[k] != '\n',
    ensures
        lines_of(Seq::empty()) == Seq::<Seq<char>>::empty(),
        line.len() > 0 ==> lines_of(line) == seq![line],
        line.len() == 0 || line.last() != '\r' ==> lines_of(line + seq!['\n'] + rest) == seq![line]
            + lines_of(rest),
        lines_of(line + seq!['\r'] + seq!['\n'] + rest) == seq![line] + lines_of(rest),
{
    let n = line.len() as int;
    let s = line + seq!['\n'] + rest;
    assert forall|j: int| 0 <= j < n implies s[j] != '\n' by {
        assert(s[j] == line[j]);
    }
    assert(s[n] == '\n');
    lemma_first_of(s, '\n', n);
    assert(s.take(n) =~= line);
    assert(s.skip(n + 1) =~= rest);
    let t = line + seq!['\r'] + seq!['\n'] + rest;
    assert forall|j: int| 0 <= j < n + 1 implies t[j] != '\n' by {
        if j < n {
            assert(t[j] == line[j]);
        }
    }
    assert(t[n + 1] == '\n');
    lemma_first_of(t, '\n', n + 1);
    assert(t.take(n + 1) =~= line.push('\r'));
    assert(without_return(line.push('\r')) =~= line);
    assert(t.skip(n + 2) =~= rest);
    assert forall|j: int| 0 <= j < n implies line[j] != '\n' by {}
    lemma_first_of(line, '\n', n);
}

/// Parts are joined one behind the other with the separator between them.
pub proof fn separators_stand_between_parts(parts: Seq<Seq<char>>, p: Seq<char>, sep: Seq<char>)
    ensures
        joined(Seq::empty(), sep).len() == 0,
        joined(seq![p], sep) == p,
        parts.len() > 0 ==> joined(parts.push(p), sep) == joined(parts, sep) + sep + p,
{
    assert(parts.push(p).drop_last() =~= parts);
}

/// Each occurrence of the character is replaced and every other character stays, in order.
pub proof fn characters_are_replaced_each(s: Seq<char>, c: char, from: char, to: Seq<char>)
    ensures
        replaced(Seq::empty(), from, to).len() == 0,
        replaced(s.push(c), from, to) == replaced(s, from, to) + (if c == from {
            to
        } else {
            seq![c]
        }),
{
    assert(s.push(c).drop_last() =~= s);
}

/// The digits of a number spell it, without a zero in front of another digit.
pub proof fn digits_spell_the_number(n: nat)
    ensures
        all_digits(decimal(n)),
        digits_value(decimal(n)) == n,
        n >= 10 ==> decimal(n)[0] != '0',
        decimal(n).len() >= 1,
    decreases n,
{
    if n < 10 {
        let d = decimal(n);
        assert(d.drop_last() =~= Seq::empty());
        assert(digits_value(d.drop_last()) == 0);
        assert(d.last() == digit(n as int));
    } else {
        digits_spell_the_number(n / 10);
        let d = decimal(n);
        let front = decimal(n / 10);
        assert(d.drop_last() =~= front);
        assert(d.last() == digit((n % 10) as int));
        assert(d[0] == front[0]);
        assert forall|i: int| 0 <= i < d.len() implies is_digit(#[trigger] d[i]) by {
            if i < front.len() {
                assert(front[i] == d[i]);
            }
        }
    }
}

proof fn lemma_filled_step(n: nat, width: nat)
    requires
        decimal(n).len() <= width,
        width >= 2,
    ensures
        zero_filled(n, width) == zero_filled(n / 10, (width - 1) as nat).push(
            digit((n % 10) as int),
        ),
{
    if n < 10 {
        assert(n / 10 == 0);
        assert(zero_filled(n, width) =~= zero_filled(0, (width - 1) as nat).push(digit(n as int)));
    } else {
        assert(zero_filled(n, width) =~= zero_filled(n / 10, (width - 1) as nat).push(
            digit((n % 10) as int),
        ));
    }
}

proof fn lemma_decimal_grows(i: nat, j: nat)
    requires
        i <= j,
    ensures
        decimal(i).len() <= decimal(j).len(),
    decreases j,
{
    if i >= 10 {
        lemma_decimal_grows(i / 10, j / 10);
    } else if j >= 10 {
        lemma_decimal_grows(0, j / 10);
    }
}

proof fn lemma_precedes_push(a: Seq<char>, b: Seq<char>, x: char, y: char)
    requires
        a.len() == b.len(),
        precedes(a, b),
    ensures
        precedes(a.push(x), b.push(y)),
    decreases a.len(),
{
    if a.len() > 0 {
        let (c, d) = (a.push(x), b.push(y));
        assert(c[0] == a[0] && d[0] == b[0]);
        if a[0] == b[0] {
            lemma_precedes_push(a.drop_first(), b.drop_first(), x, y);
            assert(c.drop_first() =~= a.drop_first().push(x));
            assert(d.drop_first() =~= b.drop_first().push(y));
        }
    }
}

/// Numbers that are filled with zeros to one width stand in the order of the numbers.
pub proof fn zeros_keep_the_order_of_numbers(i: nat, j: nat, width: nat)
    requires
        i < j,
        decimal(j).len() <= width,
    ensures
        zero_filled(i, width).len() == width,
        zero_filled(j, width).len() == width,
        precedes(zero_filled(i, width), zero_filled(j, width)),
    decreases width,
{
    digits_spell_the_number(j);
    lemma_decimal_grows(i, j);
    if width <= 1 {
        if j >= 10 {
            digits_spell_the_number(j / 10);
        }
        let (a, b) = (zero_filled(i, width), zero_filled(j, width));
        assert(a =~= seq![digit(i as int)] && b =~= seq![digit(j as int)]);
        assert(a[0] < b[0]);
    } else {
        lemma_filled_step(i, width);
        lemma_filled_step(j, width);
        let w = (width - 1) as nat;
        let (p, q) = (zero_filled(i / 10, w), zero_filled(j / 10, w));
        let (x, y) = (digit((i % 10) as int), digit((j % 10) as int));
        if i / 10 < j / 10 {
            zeros_keep_the_order_of_numbers(i / 10, j / 10, w);
            lemma_precedes_push(p, q, x, y);
        } else {
            assert(i / 10 == j / 10);
            assert(x < y);
            first_difference_decides(p, seq![x], seq![y]);
            assert(p.push(x) =~= p + seq![x]);
            assert(p.push(y) =~= p + seq![y]);
        }
    }
}

/// What stands in front of both strings changes nothing of their order.
pub proof fn common_beginnings_keep_the_order(common: Seq<char>, a: Seq<char>, b: Seq<char>)
    ensures
        precedes(common + a, common + b) == precedes(a, b),
    decreases common.len(),
{
    if common.len() == 0 {
        assert(common + a =~= a);
        assert(common + b =~= b);
    } else {
        let (x, y) = (common + a, common + b);
        assert(x[0] == common[0] && y[0] == common[0]);
        assert(x.drop_first() =~= common.drop_first() + a);
        assert(y.drop_first() =~= common.drop_first() + b);
        common_beginnings_keep_the_order(common.drop_first(), a, b);
    }
}

/// A text of two parts has the bytes of both; a character has one byte below number 128, two below
/// 2048, three below 65536, and else four.
pub proof fn bytes_add_up(a: Seq<char>, b: Seq<char>)
    ensures
        byte_len(a + b) == byte_len(a) + byte_len(b),
        a.len() == 1 ==> byte_len(a) == (if (a[0] as int) < 128 {
            1int
        } else if (a[0] as int) < 2048 {
            2
        } else if (a[0] as int) < 65536 {
            3
        } else {
            4
        }),
    decreases b.len(),
{
    if a.len() == 1 {
        assert(a.drop_last() =~= Seq::empty());
        assert(byte_len(a.drop_last()) == 0);
    }
    if b.len() == 0 {
        assert(a + b =~= a);
    } else {
        bytes_add_up(a, b.drop_last());
        assert((a + b).drop_last() =~= a + b.drop_last());
    }
}

/// A text is filled with blanks to its width, behind it or in front of it, and never cut.
pub proof fn blanks_fill_the_width(s: Seq<char>, width: nat)
    ensures
        s.len() >= width ==> padded(s, width) == s && padded_left(s, width) == s,
        s.len() < width ==> {
            let (r, l) = (padded(s, width), padded_left(s, width));
            &&& r.len() == width && l.len() == width
            &&& forall|i: int| 0 <= i < s.len() ==> #[trigger] r[i] == s[i]
            &&& forall|i: int| s.len() <= i < width ==> #[trigger] r[i] == ' '
            &&& forall|i: int| width - s.len() <= i < width ==> #[trigger] l[i] == s[i - (width
                - s.len())]
            &&& forall|i: int| 0 <= i < width - s.len() ==> #[trigger] l[i] == ' '
        },
{
}

} // verus!
