//! Character-level helpers over `str`, `String` and `Vec<char>`: whitespace,
//! splitting into words, joining, and decimal numbers.

use vstd::prelude::*;

verus! {

/// Whether a character has the Unicode `White_Space` property.
pub open spec fn is_ws(c: char) -> bool {
    ||| '\u{9}' <= c <= '\u{d}'
    ||| c == ' '
    ||| c == '\u{85}'
    ||| c == '\u{a0}'
    ||| c == '\u{1680}'
    ||| '\u{2000}' <= c <= '\u{200a}'
    ||| c == '\u{2028}'
    ||| c == '\u{2029}'
    ||| c == '\u{202f}'
    ||| c == '\u{205f}'
    ||| c == '\u{3000}'
}

/// Whether a character has the Unicode `White_Space` property, as
/// `char::is_whitespace` decides it.
pub fn char_is_whitespace(c: char) -> (b: bool)
    ensures
        b == is_ws(c),
{
    ('\u{9}' <= c && c <= '\u{d}') || c == ' ' || c == '\u{85}' || c == '\u{a0}' || c == '\u{1680}'
        || ('\u{2000}' <= c && c <= '\u{200a}') || c == '\u{2028}' || c == '\u{2029}'
        || c == '\u{202f}' || c == '\u{205f}' || c == '\u{3000}'
}

/// Calls `String::from_iter` on characters; the string holds exactly them, in order.
#[verifier::external_body]
pub(crate) fn string_from_chars(v: Vec<char>) -> (s: String)
    ensures
        s@ == v@,
{
    String::from_iter(v)
}

/// A sequence made of whitespace only (the empty one included).
pub open spec fn is_blank(s: Seq<char>) -> bool {
    forall|i: int| 0 <= i < s.len() ==> is_ws(#[trigger] s[i])
}

/// A sequence without any whitespace.
pub open spec fn no_ws(s: Seq<char>) -> bool {
    forall|i: int| 0 <= i < s.len() ==> !is_ws(#[trigger] s[i])
}

/// The maximal runs of non-whitespace characters of `s`, in order: what
/// `str::split_whitespace` yields.
pub open spec fn split_ws(s: Seq<char>) -> Seq<Seq<char>>
    decreases s.len(),
{
    if s.len() == 0 {
        seq![]
    } else {
        let prev = split_ws(s.drop_last());
        let c = s.last();
        if is_ws(c) {
            prev
        } else if s.len() >= 2 && !is_ws(s[s.len() - 2]) {
            prev.update(prev.len() - 1, prev.last().push(c))
        } else {
            prev.push(seq![c])
        }
    }
}

/// `words` joined with one `sep` between neighbours.
pub open spec fn join_words(words: Seq<Seq<char>>, sep: char) -> Seq<char>
    decreases words.len(),
{
    if words.len() == 0 {
        seq![]
    } else if words.len() == 1 {
        words[0]
    } else {
        join_words(words.drop_last(), sep).push(sep) + words.last()
    }
}

/// The character sequences held by a sequence of character vectors.
pub open spec fn words_of(v: Seq<Vec<char>>) -> Seq<Seq<char>> {
    Seq::new(v.len(), |i: int| v[i]@)
}

/// Whether `w` begins with `p`.
pub open spec fn has_prefix(w: Seq<char>, p: Seq<char>) -> bool {
    p.len() <= w.len() && w.subrange(0, p.len() as int) == p
}

/// An ASCII decimal digit.
pub open spec fn is_digit(c: char) -> bool {
    '0' <= c <= '9'
}

/// A sequence of ASCII decimal digits.
pub open spec fn all_digits(s: Seq<char>) -> bool {
    forall|i: int| 0 <= i < s.len() ==> is_digit(#[trigger] s[i])
}

/// The character of a decimal digit value.
pub open spec fn digit_char(d: nat) -> char {
    if d == 0 {
        '0'
    } else if d == 1 {
        '1'
    } else if d == 2 {
        '2'
    } else if d == 3 {
        '3'
    } else if d == 4 {
        '4'
    } else if d == 5 {
        '5'
    } else if d == 6 {
        '6'
    } else if d == 7 {
        '7'
    } else if d == 8 {
        '8'
    } else {
        '9'
    }
}

/// The value of a digit character.
pub open spec fn digit_value(c: char) -> nat {
    ((c as nat) - ('0' as nat)) as nat
}

/// The number that a sequence of digits writes in decimal.
pub open spec fn digits_value(s: Seq<char>) -> nat
    decreases s.len(),
{
    if s.len() == 0 {
        0
    } else {
        digits_value(s.drop_last()) * 10 + digit_value(s.last())
    }
}

/// The decimal writing of `n`, without sign or leading zeros.
pub open spec fn decimal(n: nat) -> Seq<char>
    decreases n,
{
    if n < 10 {
        seq![digit_char(n)]
    } else {
        decimal(n / 10).push(digit_char(n % 10))
    }
}

/// What `str::parse::<u32>` accepts: an optional `+`, then at least one
/// decimal digit, of a value that fits in a `u32`.
pub open spec fn parse_u32(s: Seq<char>) -> Option<u32> {
    let d = if s.len() > 0 && s[0] == '+' {
        s.subrange(1, s.len() as int)
    } else {
        s
    };
    if d.len() > 0 && all_digits(d) && digits_value(d) <= u32::MAX {
        Some(digits_value(d) as u32)
    } else {
        None
    }
}

/// Converts a string slice into the vector of its characters.
pub fn chars_of(s: &str) -> (v: Vec<char>)
    ensures
        v@ == s@,
{
    let n = s.unicode_len();
    let mut v: Vec<char> = Vec::new();
    let mut i: usize = 0;
    while i < n
        invariant
            n == s@.len(),
            i <= n,
            v@ == s@.subrange(0, i as int),
        decreases n - i,
    {
        let c = s.get_char(i);
        v.push(c);
        i = i + 1;
        assert(v@ =~= s@.subrange(0, i as int));
    }
    assert(v@ =~= s@);
    v
}

/// Whether a string slice holds exactly the given characters.
pub fn str_equals(s: &str, lit: &str) -> (b: bool)
    ensures
        b == (s@ == lit@),
{
    let n = s.unicode_len();
    let m = lit.unicode_len();
    if n != m {
        return false;
    }
    let mut i: usize = 0;
    while i < n
        invariant
            n == s@.len(),
            m == lit@.len(),
            n == m,
            i <= n,
            forall|j: int| 0 <= j < i ==> s@[j] == lit@[j],
        decreases n - i,
    {
        if s.get_char(i) != lit.get_char(i) {
            return false;
        }
        i = i + 1;
    }
    assert(s@ =~= lit@);
    true
}

/// Appends the characters of `s` to `out`.
pub fn push_str(out: &mut Vec<char>, s: &str)
    ensures
        final(out)@ == old(out)@ + s@,
{
    let n = s.unicode_len();
    let mut i: usize = 0;
    while i < n
        invariant
            n == s@.len(),
            i <= n,
            out@ == old(out)@ + s@.subrange(0, i as int),
        decreases n - i,
    {
        let c = s.get_char(i);
        out.push(c);
        i = i + 1;
        assert(out@ =~= old(out)@ + s@.subrange(0, i as int));
    }
    assert(s@.subrange(0, n as int) =~= s@);
}

/// Appends the characters of `s` to `out`.
pub fn push_chars(out: &mut Vec<char>, s: &Vec<char>)
    ensures
        final(out)@ == old(out)@ + s@,
{
    let mut i: usize = 0;
    while i < s.len()
        invariant
            i <= s.len(),
            out@ == old(out)@ + s@.subrange(0, i as int),
        decreases s.len() - i,
    {
        out.push(s[i]);
        i = i + 1;
        assert(out@ =~= old(out)@ + s@.subrange(0, i as int));
    }
    assert(s@.subrange(0, s@.len() as int) =~= s@);
}

/// The characters of `w` from index `k` on.
pub fn suffix(w: &Vec<char>, k: usize) -> (r: Vec<char>)
    requires
        k <= w@.len(),
    ensures
        r@ == w@.subrange(k as int, w@.len() as int),
{
    let mut r: Vec<char> = Vec::new();
    let mut i: usize = k;
    while i < w.len()
        invariant
            k <= i <= w@.len(),
            r@ == w@.subrange(k as int, i as int),
        decreases w.len() - i,
    {
        r.push(w[i]);
        i = i + 1;
        assert(r@ =~= w@.subrange(k as int, i as int));
    }
    r
}

/// Whether `w` begins with `p`.
pub fn starts_with(w: &Vec<char>, p: &Vec<char>) -> (b: bool)
    ensures
        b == has_prefix(w@, p@),
{
    if p.len() > w.len() {
        return false;
    }
    let mut i: usize = 0;
    while i < p.len()
        invariant
            p@.len() <= w@.len(),
            i <= p@.len(),
            forall|j: int| 0 <= j < i ==> w@[j] == p@[j],
        decreases p.len() - i,
    {
        if w[i] != p[i] {
            assert(w@.subrange(0, p@.len() as int)[i as int] != p@[i as int]);
            return false;
        }
        i = i + 1;
    }
    assert(w@.subrange(0, p@.len() as int) =~= p@);
    true
}

/// A copy of a character vector.
pub fn copy_chars(w: &Vec<char>) -> (r: Vec<char>)
    ensures
        r@ == w@,
{
    let r = suffix(w, 0);
    assert(w@.subrange(0, w@.len() as int) =~= w@);
    r
}

/// Whether two character vectors are equal.
pub fn chars_equal(a: &Vec<char>, b: &Vec<char>) -> (r: bool)
    ensures
        r == (a@ == b@),
{
    if a.len() != b.len() {
        return false;
    }
    let mut i: usize = 0;
    while i < a.len()
        invariant
            a@.len() == b@.len(),
            i <= a@.len(),
            forall|j: int| 0 <= j < i ==> a@[j] == b@[j],
        decreases a.len() - i,
    {
        if a[i] != b[i] {
            return false;
        }
        i = i + 1;
    }
    assert(a@ =~= b@);
    true
}

/// One step of `split_ws`, unfolded on a prefix.
proof fn lemma_split_ws_step(s: Seq<char>, i: int)
    requires
        0 <= i < s.len(),
    ensures
        ({
            let prev = split_ws(s.subrange(0, i));
            let c = s[i];
            split_ws(s.subrange(0, i + 1)) == if is_ws(c) {
                prev
            } else if i >= 1 && !is_ws(s[i - 1]) {
                prev.update(prev.len() - 1, prev.last().push(c))
            } else {
                prev.push(seq![c])
            }
        }),
{
    assert(s.subrange(0, i + 1).drop_last() =~= s.subrange(0, i));
}

/// The words of a sequence ending in a non-whitespace character are not empty.
pub proof fn lemma_split_ws_nonempty(s: Seq<char>)
    requires
        s.len() > 0,
        !is_ws(s.last()),
    ensures
        split_ws(s).len() > 0,
    decreases s.len(),
{
    if s.len() >= 2 && !is_ws(s[s.len() - 2]) {
        lemma_split_ws_nonempty(s.drop_last());
    }
}

/// A sequence has no words exactly when it is blank.
pub proof fn lemma_split_ws_empty(s: Seq<char>)
    ensures
        split_ws(s).len() == 0 <==> is_blank(s),
    decreases s.len(),
{
    if s.len() > 0 {
        lemma_split_ws_empty(s.drop_last());
        if !is_ws(s.last()) {
            lemma_split_ws_nonempty(s);
        } else {
            if is_blank(s.drop_last()) {
                assert forall|i: int| 0 <= i < s.len() implies is_ws(#[trigger] s[i]) by {
                    if i < s.len() - 1 {
                        assert(s.drop_last()[i] == s[i]);
                    }
                }
            } else {
                let j = choose|j: int| 0 <= j < s.drop_last().len() && !is_ws(#[trigger] s.drop_last()[j]);
                assert(s[j] == s.drop_last()[j]);
            }
        }
    }
}

/// The fields of `s` between occurrences of `c`, in order, empty ones
/// included: what `str::split` with a character yields.
pub open spec fn split_on(s: Seq<char>, c: char) -> Seq<Seq<char>>
    decreases s.len(),
{
    if s.len() == 0 {
        seq![seq![]]
    } else {
        let prev = split_on(s.drop_last(), c);
        if s.last() == c {
            prev.push(seq![])
        } else {
            prev.update(prev.len() - 1, prev.last().push(s.last()))
        }
    }
}

/// There is always at least one field.
pub proof fn lemma_split_on_nonempty(s: Seq<char>, c: char)
    ensures
        split_on(s, c).len() > 0,
    decreases s.len(),
{
    if s.len() > 0 {
        lemma_split_on_nonempty(s.drop_last(), c);
    }
}

/// A separator ends one field and starts the next: the fields of `x`, `c`,
/// then `y` are those of `x` followed by those of `y`.
pub proof fn lemma_split_on_sep(x: Seq<char>, c: char, y: Seq<char>)
    ensures
        split_on(x + seq![c] + y, c) == split_on(x, c) + split_on(y, c),
    decreases y.len(),
{
    let s = x + seq![c] + y;
    if y.len() == 0 {
        assert(s.drop_last() =~= x);
        assert(split_on(x, c).push(seq![]) =~= split_on(x, c) + split_on(y, c));
    } else {
        let y0 = y.drop_last();
        let d = y.last();
        lemma_split_on_sep(x, c, y0);
        assert(s.drop_last() =~= x + seq![c] + y0);
        let p = split_on(x, c);
        let q = split_on(y0, c);
        lemma_split_on_nonempty(y0, c);
        if d == c {
            assert((p + q).push(seq![]) =~= p + q.push(seq![]));
        } else {
            assert((p + q).update((p + q).len() - 1, (p + q).last().push(d)) =~= p + q.update(
                q.len() - 1,
                q.last().push(d),
            ));
        }
    }
}

/// A sequence without `c` is a single field.
pub proof fn lemma_split_on_field(w: Seq<char>, c: char)
    requires
        forall|i: int| 0 <= i < w.len() ==> #[trigger] w[i] != c,
    ensures
        split_on(w, c) == seq![w],
    decreases w.len(),
{
    if w.len() > 0 {
        lemma_split_on_field(w.drop_last(), c);
        assert(w.last() == w[w.len() - 1]);
        assert(w.drop_last().push(w.last()) =~= w);
        assert(seq![w.drop_last()].update(0, w.drop_last().push(w.last())) =~= seq![w]);
    } else {
        assert(w =~= Seq::<char>::empty());
        assert(seq![Seq::<char>::empty()] =~= seq![w]);
    }
}

/// Fields without `c`, joined by `c` and split on `c` again, come back.
pub proof fn lemma_split_on_join(ws: Seq<Seq<char>>, c: char)
    requires
        ws.len() > 0,
        forall|i: int, j: int| 0 <= i < ws.len() && 0 <= j < ws[i].len() ==> #[trigger] ws[i][j] != c,
    ensures
        split_on(join_words(ws, c), c) == ws,
    decreases ws.len(),
{
    if ws.len() == 1 {
        assert forall|j: int| 0 <= j < ws[0].len() implies #[trigger] ws[0][j] != c by {
            assert(ws[0][j] != c);
        }
        lemma_split_on_field(ws[0], c);
        assert(seq![ws[0]] =~= ws);
    } else {
        let init = ws.drop_last();
        assert forall|i: int, j: int| 0 <= i < init.len() && 0 <= j < init[i].len() implies #[trigger] init[i][j] != c by {
            assert(init[i] == ws[i]);
            assert(ws[i][j] != c);
        }
        lemma_split_on_join(init, c);
        let last = ws.last();
        assert forall|j: int| 0 <= j < last.len() implies #[trigger] last[j] != c by {
            assert(last == ws[ws.len() - 1]);
            assert(ws[ws.len() - 1][j] != c);
        }
        lemma_split_on_field(last, c);
        assert(join_words(init, c).push(c) + last =~= join_words(init, c) + seq![c] + last);
        lemma_split_on_sep(join_words(init, c), c, last);
        assert(init + seq![last] =~= ws);
    }
}

/// Whitespace separates: the words of `x`, one whitespace character, then
/// `y` are the words of `x` followed by the words of `y`.
pub proof fn lemma_split_ws_sep(x: Seq<char>, c: char, y: Seq<char>)
    requires
        is_ws(c),
    ensures
        split_ws(x + seq![c] + y) == split_ws(x) + split_ws(y),
    decreases y.len(),
{
    let s = x + seq![c] + y;
    if y.len() == 0 {
        assert(s.drop_last() =~= x);
        assert(split_ws(x) + split_ws(y) =~= split_ws(x));
    } else {
        let y0 = y.drop_last();
        let d = y.last();
        lemma_split_ws_sep(x, c, y0);
        assert(s.drop_last() =~= x + seq![c] + y0);
        assert(s.last() == d);
        assert(s[s.len() - 2] == if y.len() >= 2 {
            y[y.len() - 2]
        } else {
            c
        });
        let p = split_ws(x);
        let q = split_ws(y0);
        if is_ws(d) {
        } else if y.len() >= 2 && !is_ws(y[y.len() - 2]) {
            lemma_split_ws_nonempty(y0);
            assert((p + q).update((p + q).len() - 1, (p + q).last().push(d)) =~= p + q.update(
                q.len() - 1,
                q.last().push(d),
            ));
        } else {
            assert((p + q).push(seq![d]) =~= p + q.push(seq![d]));
        }
    }
}

/// A non-empty sequence without whitespace is one word.
pub proof fn lemma_split_ws_word(w: Seq<char>)
    requires
        w.len() > 0,
        no_ws(w),
    ensures
        split_ws(w) == seq![w],
    decreases w.len(),
{
    if w.len() == 1 {
        assert(w.drop_last() =~= Seq::<char>::empty());
        assert(split_ws(w.drop_last()) =~= Seq::<Seq<char>>::empty());
        assert(!is_ws(w.last()));
        assert(split_ws(w) == split_ws(w.drop_last()).push(seq![w.last()]));
        assert(seq![w.last()] =~= w);
    } else {
        lemma_split_ws_word(w.drop_last());
        assert(!is_ws(w[w.len() - 2]));
        assert(!is_ws(w.last()));
        assert(w.drop_last().push(w.last()) =~= w);
        assert(seq![w.drop_last()].update(0, w.drop_last().push(w.last())) =~= seq![w]);
    }
}

/// The words of each of `ps`, one after the other.
pub open spec fn split_all(ps: Seq<Seq<char>>) -> Seq<Seq<char>>
    decreases ps.len(),
{
    if ps.len() == 0 {
        seq![]
    } else {
        split_all(ps.drop_last()) + split_ws(ps.last())
    }
}

/// Splitting parts joined by a whitespace character splits each part.
pub proof fn lemma_split_join(ps: Seq<Seq<char>>, sep: char)
    requires
        is_ws(sep),
    ensures
        split_ws(join_words(ps, sep)) == split_all(ps),
    decreases ps.len(),
{
    if ps.len() == 1 {
        assert(split_all(ps.drop_last()) =~= Seq::<Seq<char>>::empty());
        assert(split_all(ps) =~= split_ws(ps[0]));
    } else if ps.len() > 1 {
        lemma_split_join(ps.drop_last(), sep);
        lemma_split_ws_sep(join_words(ps.drop_last(), sep), sep, ps.last());
        assert(join_words(ps.drop_last(), sep).push(sep) + ps.last() =~= join_words(
            ps.drop_last(),
            sep,
        ) + seq![sep] + ps.last());
    }
}

/// `split_all` of two lists of parts is the concatenation.
pub proof fn lemma_split_all_concat(a: Seq<Seq<char>>, b: Seq<Seq<char>>)
    ensures
        split_all(a + b) == split_all(a) + split_all(b),
    decreases b.len(),
{
    if b.len() == 0 {
        assert(a + b =~= a);
        assert(split_all(a) + split_all(b) =~= split_all(a));
    } else {
        lemma_split_all_concat(a, b.drop_last());
        assert((a + b).drop_last() =~= a + b.drop_last());
        assert((a + b).last() == b.last());
        assert(split_all(a) + split_all(b.drop_last()) + split_ws(b.last()) =~= split_all(a) + (
        split_all(b.drop_last()) + split_ws(b.last())));
    }
}

/// Parts that are each one word split into themselves.
pub proof fn lemma_split_all_words(ps: Seq<Seq<char>>)
    requires
        forall|i: int| 0 <= i < ps.len() ==> #[trigger] ps[i].len() > 0 && no_ws(ps[i]),
    ensures
        split_all(ps) == ps,
    decreases ps.len(),
{
    if ps.len() > 0 {
        lemma_split_all_words(ps.drop_last());
        assert(ps.last() == ps[ps.len() - 1]);
        lemma_split_ws_word(ps.last());
        assert(ps.drop_last().push(ps.last()) =~= ps);
    }
}

/// Joining two non-empty lists of words is joining each and putting one
/// separator between.
pub proof fn lemma_join_concat(a: Seq<Seq<char>>, b: Seq<Seq<char>>, sep: char)
    requires
        a.len() > 0,
        b.len() > 0,
    ensures
        join_words(a + b, sep) == join_words(a, sep).push(sep) + join_words(b, sep),
    decreases b.len(),
{
    assert((a + b).drop_last() =~= a + b.drop_last());
    assert((a + b).last() == b.last());
    if b.len() == 1 {
        assert(a + b.drop_last() =~= a);
    } else {
        lemma_join_concat(a, b.drop_last(), sep);
        assert((join_words(a, sep).push(sep) + join_words(b.drop_last(), sep)).push(sep) + b.last()
            =~= join_words(a, sep).push(sep) + (join_words(b.drop_last(), sep).push(sep) + b.last()));
    }
}

/// Words without whitespace, joined by a space and split again, come back.
pub proof fn lemma_split_join_words(ws: Seq<Seq<char>>)
    requires
        forall|i: int| 0 <= i < ws.len() ==> #[trigger] ws[i].len() > 0 && no_ws(ws[i]),
    ensures
        split_ws(join_words(ws, ' ')) == ws,
{
    lemma_split_join(ws, ' ');
    lemma_split_all_words(ws);
}

/// The words of a sequence are non-empty and hold no whitespace.
pub proof fn lemma_split_ws_words(s: Seq<char>)
    ensures
        forall|i: int|
            0 <= i < split_ws(s).len() ==> #[trigger] split_ws(s)[i].len() > 0 && no_ws(
                split_ws(s)[i],
            ),
    decreases s.len(),
{
    if s.len() > 0 {
        lemma_split_ws_words(s.drop_last());
        let prev = split_ws(s.drop_last());
        if !is_ws(s.last()) && s.len() >= 2 && !is_ws(s[s.len() - 2]) {
            lemma_split_ws_nonempty(s.drop_last());
            let lw = prev.last().push(s.last());
            assert(prev.last() == prev[prev.len() - 1]);
            assert(no_ws(lw)) by {
                assert forall|j: int| 0 <= j < lw.len() implies !is_ws(#[trigger] lw[j]) by {
                    if j < lw.len() - 1 {
                        assert(lw[j] == prev[prev.len() - 1][j]);
                    }
                }
            }
        }
    }
}

/// Splits characters into their maximal runs of non-whitespace.
pub fn split_words(s: &Vec<char>) -> (ws: Vec<Vec<char>>)
    ensures
        words_of(ws@) == split_ws(s@),
{
    let mut done: Vec<Vec<char>> = Vec::new();
    let mut cur: Vec<char> = Vec::new();
    let mut i: usize = 0;
    assert(s@.subrange(0, 0) =~= Seq::<char>::empty());
    while i < s.len()
        invariant
            i <= s@.len(),
            split_ws(s@.subrange(0, i as int)) == if cur@.len() > 0 {
                words_of(done@).push(cur@)
            } else {
                words_of(done@)
            },
            cur@.len() > 0 <==> (i > 0 && !is_ws(s@[i - 1])),
        decreases s.len() - i,
    {
        let c = s[i];
        proof {
            lemma_split_ws_step(s@, i as int);
        }
        let ghost old_done = words_of(done@);
        let ghost old_cur = cur@;
        if char_is_whitespace(c) {
            if cur.len() > 0 {
                done.push(cur);
                cur = Vec::new();
                assert(words_of(done@) =~= old_done.push(old_cur));
            }
        } else {
            let had = cur.len() > 0;
            cur.push(c);
            if had {
                assert(old_done.push(old_cur).update(old_done.len() as int, old_cur.push(c))
                    =~= old_done.push(cur@));
            } else {
                assert(cur@ =~= seq![c]);
            }
        }
        i = i + 1;
    }
    assert(s@.subrange(0, s@.len() as int) =~= s@);
    if cur.len() > 0 {
        let ghost old_done = words_of(done@);
        let ghost old_cur = cur@;
        done.push(cur);
        assert(words_of(done@) =~= old_done.push(old_cur));
    }
    done
}

/// Joins words with one `sep` between neighbours.
pub fn join_chars(words: &Vec<Vec<char>>, sep: char) -> (r: Vec<char>)
    ensures
        r@ == join_words(words_of(words@), sep),
{
    let mut r: Vec<char> = Vec::new();
    let mut i: usize = 0;
    while i < words.len()
        invariant
            i <= words@.len(),
            r@ == join_words(words_of(words@).subrange(0, i as int), sep),
        decreases words.len() - i,
    {
        let ghost dv = words_of(words@);
        assert(dv.subrange(0, i + 1).drop_last() =~= dv.subrange(0, i as int));
        if i > 0 {
            r.push(sep);
        }
        push_chars(&mut r, &words[i]);
        i = i + 1;
        assert(dv.subrange(0, i as int).last() == dv[i - 1]);
        if i == 1 {
            assert(r@ =~= join_words(dv.subrange(0, i as int), sep));
        }
    }
    assert(words_of(words@).subrange(0, words@.len() as int) =~= words_of(words@));
    r
}

/// The character of a digit value.
fn digit_to_char(d: u32) -> (c: char)
    requires
        d < 10,
    ensures
        c == digit_char(d as nat),
        is_digit(c),
        digit_value(c) == d,
{
    match d {
        0 => '0',
        1 => '1',
        2 => '2',
        3 => '3',
        4 => '4',
        5 => '5',
        6 => '6',
        7 => '7',
        8 => '8',
        _ => '9',
    }
}

/// Appends the decimal writing of `n` to `out`.
pub fn push_decimal(out: &mut Vec<char>, n: u32)
    ensures
        final(out)@ == old(out)@ + decimal(n as nat),
    decreases n,
{
    if n >= 10 {
        push_decimal(out, n / 10);
    }
    let c = digit_to_char(n % 10);
    out.push(c);
    assert(out@ =~= old(out)@ + decimal(n as nat));
}

/// A prefix of a digit sequence has no greater value.
proof fn lemma_digits_value_prefix(s: Seq<char>, k: int)
    requires
        0 <= k <= s.len(),
    ensures
        digits_value(s.subrange(0, k)) <= digits_value(s),
    decreases s.len(),
{
    if k < s.len() {
        lemma_digits_value_prefix(s.drop_last(), k);
        assert(s.drop_last().subrange(0, k) =~= s.subrange(0, k));
        let v = digits_value(s.drop_last());
        assert(v <= v * 10) by (nonlinear_arith);
    } else {
        assert(s.subrange(0, k) =~= s);
    }
}

/// The decimal writing of a number is digits of that value.
pub proof fn lemma_decimal(n: nat)
    ensures
        decimal(n).len() > 0,
        all_digits(decimal(n)),
        digits_value(decimal(n)) == n,
    decreases n,
{
    if n < 10 {
        assert(decimal(n).drop_last() =~= Seq::<char>::empty());
        assert(digits_value(decimal(n)) == digits_value(decimal(n).drop_last()) * 10 + digit_value(decimal(n).last()));
        assert(digit_value(digit_char(n)) == n);
    } else {
        lemma_decimal(n / 10);
        let d = decimal(n);
        assert(d.drop_last() =~= decimal(n / 10));
        assert forall|i: int| 0 <= i < d.len() implies is_digit(#[trigger] d[i]) by {
            if i < d.len() - 1 {
                assert(d[i] == decimal(n / 10)[i]);
            }
        }
    }
}

/// Reading back the decimal writing of a `u32` gives the number.
pub proof fn lemma_parse_decimal(n: u32)
    ensures
        parse_u32(decimal(n as nat)) == Some(n),
{
    lemma_decimal(n as nat);
    assert(is_digit(decimal(n as nat)[0]));
}

/// Parses digits with an optional leading `+`, as `str::parse::<u32>` does.
pub fn parse_u32_chars(s: &Vec<char>) -> (r: Option<u32>)
    ensures
        r == parse_u32(s@),
{
    let start: usize = if s.len() > 0 && s[0] == '+' { 1 } else { 0 };
    let ghost d = if s@.len() > 0 && s@[0] == '+' {
        s@.subrange(1, s@.len() as int)
    } else {
        s@
    };
    assert(d =~= s@.subrange(start as int, s@.len() as int));
    if start == s.len() {
        return None;
    }
    let mut acc: u64 = 0;
    let mut i: usize = start;
    while i < s.len()
        invariant
            start <= i <= s@.len(),
            d == s@.subrange(start as int, s@.len() as int),
            d == (if s@.len() > 0 && s@[0] == '+' {
                s@.subrange(1, s@.len() as int)
            } else {
                s@
            }),
            all_digits(s@.subrange(start as int, i as int)),
            acc == digits_value(s@.subrange(start as int, i as int)),
            acc <= u32::MAX,
        decreases s.len() - i,
    {
        let c = s[i];
        let ghost pre = s@.subrange(start as int, i as int);
        let ghost next = s@.subrange(start as int, i + 1);
        assert(next.drop_last() =~= pre);
        if !('0' <= c && c <= '9') {
            assert(d[i - start] == c);
            assert(!is_digit(d[i - start]));
            return None;
        }
        let dv: u64 = (c as u64) - ('0' as u64);
        assert(acc * 10 + 9 <= u64::MAX) by (nonlinear_arith)
            requires
                acc <= u32::MAX,
        ;
        assert(next.last() == c);
        assert(digits_value(next) == digits_value(pre) * 10 + digit_value(c));
        acc = acc * 10 + dv;
        i = i + 1;
        assert(all_digits(next)) by {
            assert forall|j: int| 0 <= j < next.len() implies is_digit(#[trigger] next[j]) by {
                if j < pre.len() {
                    assert(next[j] == pre[j]);
                }
            }
        }
        if acc > 0xffff_ffff {
            proof {
                if all_digits(d) {
                    lemma_digits_value_prefix(d, (i - start) as int);
                    assert(d.subrange(0, (i - start) as int) =~= next);
                }
            }
            return None;
        }
    }
    assert(s@.subrange(start as int, i as int) =~= d);
    Some(acc as u32)
}

} // verus!
