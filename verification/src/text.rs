//! Characters, byte lengths and string building.
use vstd::prelude::*;
use vstd::std_specs::iter::IteratorSpec;

verus! {

broadcast use vstd::string::group_string_axioms;

/// A control character: Unicode general category Cc (U+0000..=U+001F, U+007F..=U+009F).
pub open spec fn is_control(c: char) -> bool {
    (c as u32) <= 0x1f || (0x7f <= (c as u32) && (c as u32) <= 0x9f)
}

/// A character with the Unicode `White_Space` property.
pub open spec fn is_whitespace(c: char) -> bool {
    let u = c as u32;
    ||| 0x09 <= u && u <= 0x0d
    ||| u == 0x20 || u == 0x85 || u == 0xa0 || u == 0x1680
    ||| 0x2000 <= u && u <= 0x200a
    ||| u == 0x2028 || u == 0x2029 || u == 0x202f || u == 0x205f || u == 0x3000
}

/// An ASCII decimal digit.
pub open spec fn is_ascii_digit(c: char) -> bool {
    '0' <= c && c <= '9'
}

/// `c` with an ASCII upper-case letter mapped to its lower-case form.
pub open spec fn ascii_lower(c: char) -> char {
    if 'A' <= c && c <= 'Z' {
        ((c as u32) + 32) as char
    } else {
        c
    }
}

/// `s` with every ASCII upper-case letter mapped to lower case.
pub open spec fn fold_ascii(s: Seq<char>) -> Seq<char> {
    s.map_values(|c: char| ascii_lower(c))
}

/// The number of bytes of the UTF-8 encoding of `s`.
pub open spec fn byte_len(s: Seq<char>) -> nat {
    vstd::utf8::encode_utf8(s).len()
}

/// `s` without its leading white space.
pub open spec fn trim_start(s: Seq<char>) -> Seq<char>
    decreases s.len(),
{
    if s.len() > 0 && is_whitespace(s[0]) {
        trim_start(s.drop_first())
    } else {
        s
    }
}

/// `s` without its trailing white space.
pub open spec fn trim_end(s: Seq<char>) -> Seq<char>
    decreases s.len(),
{
    if s.len() > 0 && is_whitespace(s.last()) {
        trim_end(s.drop_last())
    } else {
        s
    }
}

/// `s` without leading and trailing white space.
pub open spec fn trim(s: Seq<char>) -> Seq<char> {
    trim_end(trim_start(s))
}

/// The maximal runs of non-white-space characters of `s`, in order.
pub open spec fn words(s: Seq<char>) -> Seq<Seq<char>>
    decreases s.len(),
{
    if s.len() == 0 {
        seq![]
    } else {
        let prev = words(s.drop_last());
        let c = s.last();
        if is_whitespace(c) {
            prev
        } else if s.len() >= 2 && !is_whitespace(s[s.len() - 2]) {
            prev.update(prev.len() - 1, prev.last().push(c))
        } else {
            prev.push(seq![c])
        }
    }
}

/// The words joined with one space between neighbours.
pub open spec fn join_words(w: Seq<Seq<char>>) -> Seq<char>
    decreases w.len(),
{
    if w.len() == 0 {
        seq![]
    } else if w.len() == 1 {
        w[0]
    } else {
        join_words(w.drop_last()) + seq![' '] + w.last()
    }
}

/// The predicate that keeps every character that is not a control character.
pub open spec fn printable() -> spec_fn(char) -> bool {
    |c: char| !is_control(c)
}

/// Control characters dropped, then the white-space separated words joined by single spaces.
pub open spec fn sanitize(s: Seq<char>) -> Seq<char> {
    join_words(words(s.filter(printable())))
}

pub fn char_is_control(c: char) -> (b: bool)
    ensures
        b == is_control(c),
{
    let u = c as u32;
    u <= 0x1f || (0x7f <= u && u <= 0x9f)
}

pub fn char_is_whitespace(c: char) -> (b: bool)
    ensures
        b == is_whitespace(c),
{
    let u = c as u32;
    (0x09 <= u && u <= 0x0d) || u == 0x20 || u == 0x85 || u == 0xa0 || u == 0x1680 || (0x2000
        <= u && u <= 0x200a) || u == 0x2028 || u == 0x2029 || u == 0x202f || u == 0x205f || u
        == 0x3000
}

pub fn char_is_ascii_digit(c: char) -> (b: bool)
    ensures
        b == is_ascii_digit(c),
{
    '0' <= c && c <= '9'
}

pub fn char_ascii_lower(c: char) -> (r: char)
    ensures
        r == ascii_lower(c),
{
    if 'A' <= c && c <= 'Z' {
        let u = (c as u32) + 32;
        assert(0x61 <= u <= 0x7a);
        char_from_ascii(u)
    } else {
        c
    }
}

/// The character whose code is the ASCII value `u`.
fn char_from_ascii(u: u32) -> (c: char)
    requires
        u < 0x80,
    ensures
        c == u as char,
{
    let b: u8 = u as u8;
    b as char
}

/// The characters of `s`, in order.
pub fn chars_of(s: &str) -> (out: Vec<char>)
    ensures
        out@ == s@,
{
    let mut out: Vec<char> = Vec::new();
    let mut it = s.chars();
    assert(it.remaining() == s@);
    loop
        invariant
            out@ + it.remaining() == s@,
            it.obeys_prophetic_iter_laws(),
            it.decrease() is Some,
        ensures
            out@ == s@,
        decreases it.decrease()->0,
    {
        match it.next() {
            Some(c) => {
                out.push(c);
            },
            None => {
                assert(out@ + it.remaining() == out@);
                break ;
            },
        }
    }
    out
}

/// A `String` holding the given characters.
#[verifier::external_body]
pub(crate) fn string_from_chars(chars: &[char]) -> (s: String)
    ensures
        s@ == chars@,
{
    chars.iter().collect()
}

/// The number of bytes of the UTF-8 encoding of `c`.
pub open spec fn char_width(c: char) -> nat {
    vstd::utf8::encode_scalar(c as u32).len()
}

/// The UTF-8 encoding of a concatenation is the concatenation of the encodings.
pub proof fn lemma_encode_append(a: Seq<char>, b: Seq<char>)
    ensures
        vstd::utf8::encode_utf8(a + b) == vstd::utf8::encode_utf8(a) + vstd::utf8::encode_utf8(b),
    decreases a.len(),
{
    if a.len() == 0 {
        assert(a + b =~= b);
    } else {
        assert((a + b).drop_first() =~= a.drop_first() + b);
        lemma_encode_append(a.drop_first(), b);
        assert((a + b)[0] == a[0]);
    }
}

/// The byte length of `s` followed by `c`.
pub proof fn lemma_byte_len_push(s: Seq<char>, c: char)
    ensures
        byte_len(s.push(c)) == byte_len(s) + char_width(c),
{
    lemma_encode_append(s, seq![c]);
    assert(s.push(c) =~= s + seq![c]);
    let one = seq![c];
    assert(one.drop_first() =~= Seq::<char>::empty());
    assert(vstd::utf8::encode_utf8(Seq::<char>::empty()) =~= Seq::<u8>::empty());
    assert(vstd::utf8::encode_utf8(one) =~= vstd::utf8::encode_scalar(c as u32));
}

pub proof fn lemma_byte_len_append(a: Seq<char>, b: Seq<char>)
    ensures
        byte_len(a + b) == byte_len(a) + byte_len(b),
{
    lemma_encode_append(a, b);
}

/// The number of UTF-8 bytes of `c`.
pub fn char_utf8_width(c: char) -> (n: usize)
    ensures
        n == char_width(c),
        1 <= n <= 4,
{
    let u = c as u32;
    proof {
        vstd::utf8::char_is_scalar(c);
    }
    if u <= 0x7f {
        1
    } else if u <= 0x7ff {
        2
    } else if u <= 0xffff {
        3
    } else {
        4
    }
}

/// Whether the UTF-8 encoding of `s` is longer than `limit` bytes.
pub fn byte_len_exceeds(s: &[char], limit: usize) -> (b: bool)
    ensures
        b == (byte_len(s@) > limit),
{
    let mut total: usize = 0;
    let mut i: usize = 0;
    while i < s.len()
        invariant
            i <= s@.len(),
            total == byte_len(s@.take(i as int)),
            total <= limit,
        decreases s@.len() - i,
    {
        proof {
            lemma_byte_len_push(s@.take(i as int), s@[i as int]);
            assert(s@.take(i as int).push(s@[i as int]) =~= s@.take(i + 1));
        }
        let w = char_utf8_width(s[i]);
        if w > limit - total {
            proof {
                lemma_byte_len_append(s@.take(i + 1), s@.skip(i + 1));
                assert(s@.take(i + 1) + s@.skip(i + 1) =~= s@);
            }
            return true;
        }
        total = total + w;
        i = i + 1;
    }
    assert(s@.take(s@.len() as int) =~= s@);
    false
}

/// Whether `s`, with ASCII letters folded to lower case, equals `target`.
pub fn eq_fold(s: &[char], target: &str) -> (b: bool)
    ensures
        b == (fold_ascii(s@) == target@),
{
    let t = chars_of(target);
    if s.len() != t.len() {
        proof {
            if fold_ascii(s@) == target@ {
                assert(fold_ascii(s@).len() == s@.len());
            }
        }
        return false;
    }
    let mut i: usize = 0;
    while i < s.len()
        invariant
            i <= s@.len(),
            s@.len() == t@.len(),
            t@ == target@,
            forall|j: int| 0 <= j < i ==> ascii_lower(#[trigger] s@[j]) == t@[j],
        decreases s@.len() - i,
    {
        if char_ascii_lower(s[i]) != t[i] {
            proof {
                assert(fold_ascii(s@)[i as int] == ascii_lower(s@[i as int]));
            }
            return false;
        }
        i = i + 1;
    }
    assert(fold_ascii(s@) =~= target@);
    true
}

/// A sequence whose every element passes the test is its own filter.
pub proof fn lemma_filter_all<T>(s: Seq<T>, p: spec_fn(T) -> bool)
    requires
        forall|i: int| 0 <= i < s.len() ==> p(#[trigger] s[i]),
    ensures
        s.filter(p) == s,
    decreases s.len(),
{
    reveal_with_fuel(Seq::filter, 1);
    if s.len() > 0 {
        lemma_filter_all(s.drop_last(), p);
        assert(p(s[s.len() - 1]));
        assert(s.drop_last().push(s.last()) =~= s);
    }
}

/// A word: not empty, with neither white space nor control characters.
pub open spec fn is_word(w: Seq<char>) -> bool {
    w.len() > 0 && forall|j: int| 0 <= j < w.len() ==> !is_whitespace(#[trigger] w[j]) && !is_control(w[j])
}

/// The words of a text without control characters are words.
proof fn lemma_words_are_words(t: Seq<char>)
    requires
        forall|j: int| 0 <= j < t.len() ==> !is_control(#[trigger] t[j]),
    ensures
        forall|i: int| 0 <= i < words(t).len() ==> is_word(#[trigger] words(t)[i]),
    decreases t.len(),
{
    if t.len() > 0 {
        let p = t.drop_last();
        assert forall|j: int| 0 <= j < p.len() implies !is_control(#[trigger] p[j]) by {
            assert(p[j] == t[j]);
        }
        lemma_words_are_words(p);
        let w = words(p);
        let c = t.last();
        assert(!is_control(t[t.len() - 1]));
        if !is_whitespace(c) {
            if t.len() >= 2 && !is_whitespace(t[t.len() - 2]) {
                let u = w.update(w.len() - 1, w.last().push(c));
                assert(words(t) == u);
                assert(w.len() > 0) by {
                    assert(words(p).len() == 0 ==> false) by {
                        lemma_words_nonempty(p);
                    }
                }
                assert forall|i: int| 0 <= i < u.len() implies is_word(#[trigger] u[i]) by {
                    if i == u.len() - 1 {
                        assert(is_word(w[i]));
                        let x = w.last().push(c);
                        assert forall|j: int| 0 <= j < x.len() implies !is_whitespace(#[trigger] x[j])
                            && !is_control(x[j]) by {
                            if j < x.len() - 1 {
                                assert(x[j] == w[i][j]);
                            }
                        }
                    } else {
                        assert(u[i] == w[i]);
                    }
                }
            } else {
                let u = w.push(seq![c]);
                assert(words(t) == u);
                assert forall|i: int| 0 <= i < u.len() implies is_word(#[trigger] u[i]) by {
                    if i < w.len() {
                        assert(u[i] == w[i]);
                    } else {
                        assert(u[i] =~= seq![c]);
                    }
                }
            }
        }
    }
}

/// A text that ends in a character that is not white space has a word.
proof fn lemma_words_nonempty(t: Seq<char>)
    requires
        t.len() > 0,
        !is_whitespace(t.last()),
    ensures
        words(t).len() > 0,
    decreases t.len(),
{
    if t.len() >= 2 && !is_whitespace(t[t.len() - 2]) {
        lemma_words_nonempty(t.drop_last());
    }
}

/// A word that follows white space (or nothing) becomes one more word.
proof fn lemma_words_suffix(a: Seq<char>, b: Seq<char>)
    requires
        is_word(b),
        a.len() == 0 || is_whitespace(a.last()),
    ensures
        words(a + b) == words(a).push(b),
    decreases b.len(),
{
    let s = a + b;
    if b.len() == 1 {
        assert(s.drop_last() =~= a);
        assert(s.last() == b[0]);
        assert(b =~= seq![b[0]]);
        if s.len() >= 2 {
            assert(s[s.len() - 2] == a.last());
        }
    } else {
        let b0 = b.drop_last();
        assert(is_word(b0)) by {
            assert forall|j: int| 0 <= j < b0.len() implies !is_whitespace(#[trigger] b0[j])
                && !is_control(b0[j]) by {
                assert(b0[j] == b[j]);
            }
        }
        lemma_words_suffix(a, b0);
        assert(s.drop_last() =~= a + b0);
        assert(s[s.len() - 2] == b[b.len() - 2]);
        assert(!is_whitespace(b[b.len() - 2]));
        assert(!is_whitespace(b[b.len() - 1]));
        let w = words(a).push(b0);
        assert(b0.push(b.last()) =~= b);
        assert(w.last() == b0);
        assert(w.update(w.len() - 1, w.last().push(b.last())) =~= words(a).push(b));
    }
}

/// Trailing white space adds no word.
proof fn lemma_words_space(a: Seq<char>)
    ensures
        words(a.push(' ')) == words(a),
{
    assert(a.push(' ').drop_last() =~= a);
    assert(is_whitespace(' '));
}

/// Words joined by single spaces split back into the same words; the joined text has no control
/// character, does not begin or end with white space, and its only white space is a single space
/// between two characters that are not white space.
proof fn lemma_join_words(w: Seq<Seq<char>>)
    requires
        forall|i: int| 0 <= i < w.len() ==> is_word(#[trigger] w[i]),
    ensures
        words(join_words(w)) == w,
        forall|j: int| 0 <= j < join_words(w).len() ==> !is_control(#[trigger] join_words(w)[j]),
        collapsed(join_words(w)),
    decreases w.len(),
{
    let u = join_words(w);
    if w.len() == 0 {
        assert(words(Seq::<char>::empty()) =~= Seq::<Seq<char>>::empty());
    } else if w.len() == 1 {
        assert(is_word(w[0]));
        lemma_words_suffix(Seq::<char>::empty(), w[0]);
        assert(Seq::<char>::empty() + w[0] =~= w[0]);
        assert(words(Seq::<char>::empty()) =~= Seq::<Seq<char>>::empty());
        assert(seq![w[0]] =~= w);
    } else {
        let p = w.drop_last();
        assert forall|i: int| 0 <= i < p.len() implies is_word(#[trigger] p[i]) by {
            assert(p[i] == w[i]);
        }
        lemma_join_words(p);
        let v = join_words(p);
        let b = w.last();
        assert(is_word(w[w.len() - 1]));
        lemma_words_space(v);
        lemma_words_suffix(v.push(' '), b);
        assert(v + seq![' '] + b =~= v.push(' ') + b);
        assert(p.push(b) =~= w);
        lemma_join_nonempty(p);
        assert forall|j: int| 0 <= j < u.len() implies !is_control(#[trigger] u[j]) by {
            if j < v.len() {
                assert(u[j] == v[j]);
            } else if j > v.len() {
                assert(u[j] == b[j - v.len() - 1]);
            }
        }
        assert forall|j: int| 0 <= j < u.len() && is_whitespace(#[trigger] u[j]) implies u[j] == ' '
            && 0 < j < u.len() - 1 && !is_whitespace(u[j - 1]) && !is_whitespace(u[j + 1]) by {
            if j < v.len() {
                assert(u[j] == v[j]);
                assert(u[j - 1] == v[j - 1]);
                assert(u[j + 1] == v[j + 1]);
            } else if j > v.len() {
                assert(u[j] == b[j - v.len() - 1]);
            } else {
                assert(u[j - 1] == v[v.len() - 1]);
                assert(u[j + 1] == b[0]);
            }
        }
    }
}

/// The joined text of at least one word is not empty and begins and ends with characters that
/// are not white space.
proof fn lemma_join_nonempty(w: Seq<Seq<char>>)
    requires
        w.len() > 0,
        forall|i: int| 0 <= i < w.len() ==> is_word(#[trigger] w[i]),
    ensures
        join_words(w).len() > 0,
        !is_whitespace(join_words(w)[0]),
        !is_whitespace(join_words(w).last()),
    decreases w.len(),
{
    assert(is_word(w[w.len() - 1]));
    if w.len() == 1 {
        assert(is_word(w[0]));
    } else {
        let p = w.drop_last();
        assert forall|i: int| 0 <= i < p.len() implies is_word(#[trigger] p[i]) by {
            assert(p[i] == w[i]);
        }
        lemma_join_nonempty(p);
        let v = join_words(p);
        assert(join_words(w)[0] == v[0]);
    }
}

/// White space occurs only as a single space between two characters that are not white space.
pub open spec fn collapsed(s: Seq<char>) -> bool {
    forall|j: int|
        0 <= j < s.len() && is_whitespace(#[trigger] s[j]) ==> s[j] == ' ' && 0 < j < s.len() - 1
            && !is_whitespace(s[j - 1]) && !is_whitespace(s[j + 1])
}

/// Text without `sep` appended to `x` extends the last piece of `x`'s split.
pub proof fn lemma_split_extend(x: Seq<char>, b: Seq<char>, sep: char)
    requires
        forall|i: int| 0 <= i < b.len() ==> #[trigger] b[i] != sep,
    ensures
        crate::validation::split_on(x + b, sep) == crate::validation::split_on(x, sep).update(
            crate::validation::split_on(x, sep).len() - 1,
            crate::validation::split_on(x, sep).last() + b,
        ),
    decreases b.len(),
{
    crate::validation::lemma_split_len(x, sep);
    let px = crate::validation::split_on(x, sep);
    if b.len() == 0 {
        assert(x + b =~= x);
        assert(px.last() + b =~= px.last());
        assert(px.update(px.len() - 1, px.last()) =~= px);
    } else {
        let b0 = b.drop_last();
        assert forall|i: int| 0 <= i < b0.len() implies #[trigger] b0[i] != sep by {
            assert(b0[i] == b[i]);
        }
        lemma_split_extend(x, b0, sep);
        assert((x + b).drop_last() =~= x + b0);
        assert((x + b).last() == b.last());
        assert(b[b.len() - 1] != sep);
        let q = px.update(px.len() - 1, px.last() + b0);
        assert(q.last() == px.last() + b0);
        assert((px.last() + b0).push(b.last()) =~= px.last() + b);
        assert(q.update(q.len() - 1, q.last().push(b.last())) =~= px.update(
            px.len() - 1,
            px.last() + b,
        ));
    }
}

/// Appending text to `x` leaves every piece of `x`'s split but the last one as it was.
pub proof fn lemma_split_prefix_stable(x: Seq<char>, y: Seq<char>, sep: char)
    ensures
        crate::validation::split_on(x + y, sep).len() >= crate::validation::split_on(x, sep).len(),
        forall|i: int|
            0 <= i < crate::validation::split_on(x, sep).len() - 1 ==> #[trigger] crate::validation::split_on(
                x + y,
                sep,
            )[i] == crate::validation::split_on(x, sep)[i],
    decreases y.len(),
{
    crate::validation::lemma_split_len(x, sep);
    if y.len() == 0 {
        assert(x + y =~= x);
    } else {
        let y0 = y.drop_last();
        lemma_split_prefix_stable(x, y0, sep);
        assert((x + y).drop_last() =~= x + y0);
        crate::validation::lemma_split_len(x + y0, sep);
    }
}

/// Words joined by single spaces split on spaces back into the same words.
proof fn lemma_split_join_words(w: Seq<Seq<char>>)
    requires
        w.len() > 0,
        forall|i: int| 0 <= i < w.len() ==> is_word(#[trigger] w[i]),
    ensures
        crate::validation::split_on(join_words(w), ' ') == w,
    decreases w.len(),
{
    let b = w.last();
    assert(is_word(w[w.len() - 1]));
    assert forall|i: int| 0 <= i < b.len() implies #[trigger] b[i] != ' ' by {
        assert(!is_whitespace(b[i]));
    }
    if w.len() == 1 {
        let e = Seq::<char>::empty();
        lemma_split_extend(e, b, ' ');
        assert(e + b =~= b);
        assert(crate::validation::split_on(e, ' ') =~= seq![e]);
        assert(seq![e].update(0, e + b) =~= w);
    } else {
        let p = w.drop_last();
        assert forall|i: int| 0 <= i < p.len() implies is_word(#[trigger] p[i]) by {
            assert(p[i] == w[i]);
        }
        lemma_split_join_words(p);
        let v = join_words(p);
        let vs = v.push(' ');
        assert(vs.drop_last() =~= v);
        assert(crate::validation::split_on(vs, ' ') == p.push(seq![]));
        lemma_split_extend(vs, b, ' ');
        assert(v + seq![' '] + b =~= vs + b);
        let q = p.push(seq![]);
        assert(q.last() + b =~= b);
        assert(q.update(q.len() - 1, q.last() + b) =~= w);
    }
}

/// Sanitized text has no control character and no white space but single spaces between words
/// (so none at its start or end); split on single spaces, it gives back the words of the input with
/// its control characters removed; and sanitizing it again changes nothing.
pub proof fn law_sanitize_clean(s: Seq<char>)
    ensures
        forall|j: int| 0 <= j < sanitize(s).len() ==> !is_control(#[trigger] sanitize(s)[j]),
        collapsed(sanitize(s)),
        sanitize(s).len() > 0 ==> crate::validation::split_on(sanitize(s), ' ') == words(
            s.filter(printable()),
        ),
        sanitize(sanitize(s)) == sanitize(s),
{
    let t = s.filter(printable());
    assert forall|j: int| 0 <= j < t.len() implies !is_control(#[trigger] t[j]) by {
        broadcast use vstd::seq_lib::group_filter_ensures;
        assert(printable()(t[j]));
    }
    lemma_words_are_words(t);
    lemma_join_words(words(t));
    if words(t).len() > 0 {
        lemma_split_join_words(words(t));
    }
    let r = sanitize(s);
    assert forall|j: int| 0 <= j < r.len() implies printable()(#[trigger] r[j]) by {}
    lemma_filter_all(r, printable());
}

proof fn lemma_filter_step(s: Seq<char>, i: int)
    requires
        0 <= i < s.len(),
    ensures
        s.take(i + 1).filter(printable()) == (if is_control(s[i]) {
            s.take(i).filter(printable())
        } else {
            s.take(i).filter(printable()).push(s[i])
        }),
{
    assert(s.take(i + 1).drop_last() =~= s.take(i));
    reveal_with_fuel(Seq::filter, 1);
}

/// Control characters dropped, white space collapsed to single spaces and trimmed.
pub fn sanitize_text(value: &str) -> (out: String)
    ensures
        out@ == sanitize(value@),
{
    let v = chars_of(value);
    let mut out: Vec<char> = Vec::new();
    let ghost mut t: Seq<char> = seq![];
    let mut prev_ws = true;
    let mut i: usize = 0;
    while i < v.len()
        invariant
            i <= v@.len(),
            t == v@.take(i as int).filter(printable()),
            prev_ws == (t.len() == 0 || is_whitespace(t.last())),
            !prev_ws ==> words(t).len() > 0,
            (out@.len() == 0) == (words(t).len() == 0),
            out@ == join_words(words(t)),
        decreases v@.len() - i,
    {
        let c = v[i];
        proof {
            lemma_filter_step(v@, i as int);
        }
        if char_is_control(c) {
        } else if char_is_whitespace(c) {
            proof {
                let t2 = t.push(c);
                assert(t2.drop_last() =~= t);
                t = t2;
            }
            prev_ws = true;
        } else if !prev_ws {
            proof {
                let t2 = t.push(c);
                assert(t2.drop_last() =~= t);
                let w = words(t);
                let w2 = w.update(w.len() - 1, w.last().push(c));
                assert(words(t2) == w2);
                if w.len() >= 2 {
                    assert(w2.drop_last() =~= w.drop_last());
                }
                t = t2;
            }
            out.push(c);
            assert(out@ =~= join_words(words(t)));
        } else {
            proof {
                let t2 = t.push(c);
                assert(t2.drop_last() =~= t);
                let w = words(t);
                assert(words(t2) == w.push(seq![c]));
                assert(w.push(seq![c]).drop_last() =~= w);
                t = t2;
            }
            if out.len() > 0 {
                out.push(' ');
            }
            out.push(c);
            assert(out@ =~= join_words(words(t)));
            prev_ws = false;
        }
        i = i + 1;
    }
    assert(v@.take(v@.len() as int) =~= v@);
    string_from_chars(out.as_slice())
}

} // verus!

verus! {

/// The decimal digit for `d < 10`.
pub open spec fn digit_char(d: nat) -> char {
    ((d + 48) as u32) as char
}

/// The decimal representation of `n`, as Rust's `Display` writes it.
pub open spec fn decimal(n: nat) -> Seq<char>
    decreases n,
{
    if n < 10 {
        seq![digit_char(n)]
    } else {
        decimal(n / 10).push(digit_char(n % 10))
    }
}

/// Appends the characters of `s` to `out`.
pub fn push_str(out: &mut Vec<char>, s: &str)
    ensures
        final(out)@ == old(out)@ + s@,
{
    let mut t = chars_of(s);
    out.append(&mut t);
}

/// Appends the decimal representation of `n` to `out`.
pub fn push_decimal(out: &mut Vec<char>, n: u64)
    ensures
        final(out)@ == old(out)@ + decimal(n as nat),
    decreases n,
{
    if n >= 10 {
        push_decimal(out, n / 10);
    }
    let d = (n % 10) as u32;
    let c = char_from_ascii(d + 48);
    out.push(c);
    proof {
        if n >= 10 {
            assert(old(out)@ + decimal(n as nat) =~= old(out)@ + decimal((n / 10) as nat) + seq![c]);
        } else {
            assert(old(out)@ + decimal(n as nat) =~= old(out)@.push(c));
        }
    }
}

/// `s` as a character sequence that can be extended.
pub fn chars_of_string(s: &String) -> (out: Vec<char>)
    ensures
        out@ == s@,
{
    chars_of(s.as_str())
}

} // verus!

verus! {

proof fn lemma_trim_start_skip(s: Seq<char>, a: int)
    requires
        0 <= a < s.len(),
        is_whitespace(s[a]),
    ensures
        trim_start(s.skip(a)) == trim_start(s.skip(a + 1)),
{
    assert(s.skip(a).drop_first() =~= s.skip(a + 1));
}

proof fn lemma_trim_end_take(s: Seq<char>, b: int)
    requires
        0 < b <= s.len(),
        is_whitespace(s[b - 1]),
    ensures
        trim_end(s.take(b)) == trim_end(s.take(b - 1)),
{
    assert(s.take(b).drop_last() =~= s.take(b - 1));
}

/// The characters of `v` without leading and trailing white space.
pub fn trim_chars(v: &[char]) -> (out: Vec<char>)
    ensures
        out@ == trim(v@),
{
    let mut a: usize = 0;
    assert(v@.skip(0) =~= v@);
    while a < v.len() && char_is_whitespace(v[a])
        invariant
            a <= v@.len(),
            trim_start(v@.skip(a as int)) == trim_start(v@),
        decreases v@.len() - a,
    {
        proof {
            lemma_trim_start_skip(v@, a as int);
        }
        a = a + 1;
    }
    let ghost mid = v@.skip(a as int);
    assert(trim_start(mid) == mid);
    let mut b: usize = v.len();
    assert(mid.take(mid.len() as int) =~= mid);
    while b > a && char_is_whitespace(v[b - 1])
        invariant
            a <= b <= v@.len(),
            mid == v@.skip(a as int),
            trim_end(mid.take(b - a)) == trim_end(mid),
        decreases b,
    {
        proof {
            assert(mid[b - a - 1] == v@[b - 1]);
            lemma_trim_end_take(mid, b - a);
        }
        b = b - 1;
    }
    assert(trim_end(mid.take(b - a)) == mid.take(b - a));
    let mut out: Vec<char> = Vec::new();
    let mut i: usize = a;
    while i < b
        invariant
            a <= i <= b <= v@.len(),
            out@ == v@.subrange(a as int, i as int),
        decreases b - i,
    {
        out.push(v[i]);
        assert(out@ =~= v@.subrange(a as int, i + 1));
        i = i + 1;
    }
    assert(out@ =~= mid.take(b - a));
    out
}

/// The value of a run of ASCII digits.
pub open spec fn digits_value(s: Seq<char>) -> nat
    decreases s.len(),
{
    if s.len() == 0 {
        0
    } else {
        digits_value(s.drop_last()) * 10 + ((s.last() as u32) - 48) as nat
    }
}

/// All characters are ASCII digits and there is at least one.
pub open spec fn all_digits(s: Seq<char>) -> bool {
    s.len() > 0 && forall|j: int| 0 <= j < s.len() ==> is_ascii_digit(#[trigger] s[j])
}

/// The value that Rust's `from_str` for an unsigned integer type reads from `s`, before its range
/// is checked: an optional `+`, then one or more ASCII digits.
pub open spec fn unsigned_value(s: Seq<char>) -> Option<nat> {
    let d = if s.len() > 0 && s[0] == '+' {
        s.drop_first()
    } else {
        s
    };
    if all_digits(d) {
        Some(digits_value(d))
    } else {
        None
    }
}

/// Reads an unsigned integer of at most `max` as Rust's `from_str` for unsigned types does.
#[verifier::loop_isolation(false)]
pub fn parse_unsigned(v: &[char], max: u64) -> (r: Option<u64>)
    ensures
        r matches Some(n) ==> unsigned_value(v@) == Some(n as nat) && n <= max,
        r is None ==> !(unsigned_value(v@) matches Some(n) && n <= max),
{
    let start: usize = if v.len() > 0 && v[0] == '+' {
        1
    } else {
        0
    };
    let ghost d = if v@.len() > 0 && v@[0] == '+' {
        v@.drop_first()
    } else {
        v@
    };
    assert(d =~= v@.skip(start as int));
    if start >= v.len() {
        return None;
    }
    let mut acc: u64 = 0;
    let mut i: usize = start;
    assert(d.take(0) =~= Seq::<char>::empty());
    while i < v.len()
        invariant
            start <= i <= v@.len(),
            d == v@.skip(start as int),
            acc == digits_value(d.take(i - start)),
            acc <= max,
            forall|j: int| 0 <= j < i - start ==> is_ascii_digit(#[trigger] d[j]),
        decreases v@.len() - i,
    {
        let c = v[i];
        if !char_is_ascii_digit(c) {
            assert(d[i - start] == c);
            assert(!is_ascii_digit(d[i - start]));
            assert(!all_digits(d));
            return None;
        }
        let dv: u64 = ((c as u32) - 48) as u64;
        proof {
            assert(d.take(i - start + 1).drop_last() =~= d.take(i - start));
            assert(d[i - start] == c);
        }
        if dv > max || acc > (max - dv) / 10 {
            proof {
                assert(acc * 10 + dv > max) by (nonlinear_arith)
                    requires
                        dv > max || acc > (max - dv) / 10,
                ;
                lemma_digits_mono(d, i - start + 1, d.len() as int);
                assert(d.take(d.len() as int) =~= d);
            }
            return None;
        }
        assert(acc * 10 + dv <= max) by (nonlinear_arith)
            requires
                acc <= (max - dv) / 10,
                dv <= 9,
        ;
        acc = acc * 10 + dv;
        i = i + 1;
    }
    assert(d.take(v@.len() - start) =~= d);
    Some(acc)
}

/// Appending characters never makes a value smaller.
proof fn lemma_digits_mono(d: Seq<char>, j: int, k: int)
    requires
        0 <= j <= k <= d.len(),
    ensures
        digits_value(d.take(k)) >= digits_value(d.take(j)),
    decreases k - j,
{
    if j < k {
        lemma_digits_mono(d, j, k - 1);
        assert(d.take(k).drop_last() =~= d.take(k - 1));
    }
}

} // verus!

verus! {

/// Splits `v` at every `sep`, as `str::split` does.
pub fn split_chars(v: &[char], sep: char) -> (parts: Vec<Vec<char>>)
    ensures
        parts@.len() == crate::validation::split_on(v@, sep).len(),
        forall|i: int|
            0 <= i < parts@.len() ==> #[trigger] parts@[i]@ == crate::validation::split_on(
                v@,
                sep,
            )[i],
{
    let mut parts: Vec<Vec<char>> = Vec::new();
    let mut cur: Vec<char> = Vec::new();
    let mut i: usize = 0;
    assert(v@.take(0) =~= Seq::<char>::empty());
    while i < v.len()
        invariant
            i <= v@.len(),
            ({
                let p = crate::validation::split_on(v@.take(i as int), sep);
                &&& p.len() == parts@.len() + 1
                &&& p.last() == cur@
                &&& forall|k: int| 0 <= k < parts@.len() ==> #[trigger] parts@[k]@ == p[k]
            }),
        decreases v@.len() - i,
    {
        let c = v[i];
        proof {
            assert(v@.take(i + 1).drop_last() =~= v@.take(i as int));
        }
        if c == sep {
            let done = cur;
            parts.push(done);
            cur = Vec::new();
        } else {
            cur.push(c);
        }
        i = i + 1;
    }
    assert(v@.take(v@.len() as int) =~= v@);
    parts.push(cur);
    parts
}

} // verus!

verus! {

/// Whether two character sequences are equal.
pub fn chars_eq(a: &[char], b: &[char]) -> (r: bool)
    ensures
        r == (a@ == b@),
{
    if a.len() != b.len() {
        return false;
    }
    let mut i: usize = 0;
    while i < a.len()
        invariant
            i <= a@.len(),
            a@.len() == b@.len(),
            forall|j: int| 0 <= j < i ==> a@[j] == b@[j],
        decreases a@.len() - i,
    {
        if a[i] != b[i] {
            return false;
        }
        i = i + 1;
    }
    assert(a@ =~= b@);
    true
}

/// Whether two texts are equal.
pub fn str_eq(a: &str, b: &str) -> (r: bool)
    ensures
        r == (a@ == b@),
{
    let x = chars_of(a);
    let y = chars_of(b);
    chars_eq(x.as_slice(), y.as_slice())
}

/// The characters of `v` before its first `sep`, or all of them.
pub fn before_first(v: &[char], sep: char) -> (out: Vec<char>)
    ensures
        out@ == crate::validation::split_on(v@, sep)[0],
{
    let parts = split_chars(v, sep);
    proof {
        crate::validation::lemma_split_len(v@, sep);
    }
    let mut out: Vec<char> = Vec::new();
    let mut i: usize = 0;
    while i < parts[0].len()
        invariant
            parts@.len() >= 1,
            i <= parts@[0]@.len(),
            out@ == parts@[0]@.take(i as int),
        decreases parts@[0]@.len() - i,
    {
        out.push(parts[0][i]);
        assert(out@ =~= parts@[0]@.take(i + 1));
        i = i + 1;
    }
    assert(parts@[0]@.take(parts@[0]@.len() as int) =~= parts@[0]@);
    out
}

} // verus!

verus! {

/// A copy of the strings.
pub fn clone_strings(v: &[String]) -> (out: Vec<String>)
    ensures
        out@ == v@,
{
    let mut out: Vec<String> = Vec::new();
    let mut i: usize = 0;
    while i < v.len()
        invariant
            i <= v@.len(),
            out@ == v@.take(i as int),
        decreases v@.len() - i,
    {
        out.push(v[i].clone());
        assert(out@ =~= v@.take(i + 1));
        i = i + 1;
    }
    assert(v@.take(v@.len() as int) =~= v@);
    out
}

/// The strings joined with one space between neighbours.
pub fn join_with_spaces(v: &[String]) -> (out: String)
    ensures
        out@ == join_words(v@.map_values(|s: String| s@)),
{
    let ghost w = v@.map_values(|s: String| s@);
    let mut out: Vec<char> = Vec::new();
    let mut i: usize = 0;
    while i < v.len()
        invariant
            i <= v@.len(),
            w == v@.map_values(|s: String| s@),
            out@ == join_words(w.take(i as int)),
        decreases v@.len() - i,
    {
        let ghost before = out@;
        if i > 0 {
            out.push(' ');
        }
        push_str(&mut out, v[i].as_str());
        proof {
            let t = w.take(i + 1);
            assert(t.drop_last() =~= w.take(i as int));
            assert(t.last() == v@[i as int]@);
            if i == 0 {
                assert(out@ =~= t[0]);
            } else {
                assert(out@ =~= join_words(w.take(i as int)) + seq![' '] + t.last());
            }
        }
        i = i + 1;
    }
    assert(w.take(v@.len() as int) =~= w);
    string_from_chars(out.as_slice())
}

} // verus!

verus! {

/// The pieces joined with `sep` between neighbours.
pub open spec fn join_by(w: Seq<Seq<char>>, sep: char) -> Seq<char>
    decreases w.len(),
{
    if w.len() == 0 {
        seq![]
    } else if w.len() == 1 {
        w[0]
    } else {
        join_by(w.drop_last(), sep) + seq![sep] + w.last()
    }
}

/// The strings joined with `sep` between neighbours.
pub fn join_strings(v: &[String], sep: char) -> (out: String)
    ensures
        out@ == join_by(v@.map_values(|s: String| s@), sep),
{
    let ghost w = v@.map_values(|s: String| s@);
    let mut out: Vec<char> = Vec::new();
    let mut i: usize = 0;
    while i < v.len()
        invariant
            i <= v@.len(),
            w == v@.map_values(|s: String| s@),
            out@ == join_by(w.take(i as int), sep),
        decreases v@.len() - i,
    {
        if i > 0 {
            out.push(sep);
        }
        push_str(&mut out, v[i].as_str());
        proof {
            let t = w.take(i + 1);
            assert(t.drop_last() =~= w.take(i as int));
            assert(t.last() == v@[i as int]@);
            if i == 0 {
                assert(out@ =~= t[0]);
            } else {
                assert(out@ =~= join_by(w.take(i as int), sep) + seq![sep] + t.last());
            }
        }
        i = i + 1;
    }
    assert(w.take(v@.len() as int) =~= w);
    string_from_chars(out.as_slice())
}

} // verus!

verus! {

/// Every character takes at least one byte.
pub proof fn lemma_char_width_pos(c: char)
    ensures
        char_width(c) >= 1,
{
    vstd::utf8::char_is_scalar(c);
}

} // verus!
