//! Text primitives shared by the routing, command line and HTTP code.

use vstd::prelude::*;
use vstd::utf8::{decode_utf8, encode_utf8, valid_utf8};

verus! {

/// What a list of text pairs says.
pub open spec fn pairs(list: Seq<(String, String)>) -> Seq<(Seq<char>, Seq<char>)> {
    list.map_values(|pair: (String, String)| (pair.0@, pair.1@))
}

/// The characters of `s` before the first `c`, or all of them when `c` does not occur.
pub open spec fn before(s: Seq<char>, c: char) -> Seq<char> {
    match s.index_of_first(c) {
        Some(i) => s.take(i),
        None => s,
    }
}

/// `s` cut at its first `c`, without that `c`; `None` when `c` does not occur.
pub open spec fn split_at_first(s: Seq<char>, c: char) -> Option<(Seq<char>, Seq<char>)> {
    match s.index_of_first(c) {
        Some(i) => Some((s.take(i), s.skip(i + 1))),
        None => None,
    }
}

/// The characters of `s`, in order.
pub fn characters(s: &str) -> (chars: Vec<char>)
    ensures
        chars@ == s@,
{
    let mut chars: Vec<char> = Vec::new();
    for c in it: s.chars()
        invariant
            chars@ == s@.take(it.index()),
            it.seq() == s@,
    {
        proof {
            assert(s@.take(it.index() + 1) =~= s@.take(it.index()).push(c));
        }
        chars.push(c);
    }
    proof {
        assert(s@.take(s@.len() as int) =~= s@);
    }
    chars
}

/// Whether `a` and `b` hold the same characters.
pub fn same_text(a: &str, b: &str) -> (same: bool)
    ensures
        same == (a@ == b@),
{
    a.to_owned() == b.to_owned()
}

/// Whether `s` begins with all the characters of `prefix`.
pub fn has_prefix(s: &str, prefix: &str) -> (yes: bool)
    ensures
        yes == prefix@.is_prefix_of(s@),
{
    let text = characters(s);
    let head = characters(prefix);
    if text.len() < head.len() {
        return false;
    }
    for i in 0..head.len()
        invariant
            text@ == s@,
            head@ == prefix@,
            head@.len() <= text@.len(),
            forall|j: int| 0 <= j < i ==> text@[j] == head@[j],
    {
        if text[i] != head[i] {
            proof {
                assert(s@.subrange(0, head@.len() as int)[i as int] != prefix@[i as int]);
            }
            return false;
        }
    }
    proof {
        assert(s@.subrange(0, head@.len() as int) =~= prefix@);
    }
    true
}

/// The position, counted in characters, of the first `c` in `s`.
pub fn find_char(s: &str, c: char) -> (position: Option<usize>)
    ensures
        match position {
            Some(i) => s@.index_of_first(c) == Some(i as int),
            None => s@.index_of_first(c) is None,
        },
        position is Some ==> position->0 < s@.len(),
{
    let text = characters(s);
    for i in 0..text.len()
        invariant
            text@ == s@,
            forall|j: int| 0 <= j < i ==> text@[j] != c,
    {
        if text[i] == c {
            proof {
                s@.index_of_first_ensures(c);
                assert(s@.contains(c));
            }
            return Some(i);
        }
    }
    proof {
        s@.index_of_first_ensures(c);
    }
    None
}

/// The part of `s` before the first `c`; all of `s` when `c` does not occur.
pub fn take_before(s: &str, c: char) -> (head: String)
    ensures
        head@ == before(s@, c),
{
    match find_char(s, c) {
        Some(i) => s.substring_char(0, i).to_owned(),
        None => s.to_owned(),
    }
}

/// Cuts `s` at its first `c` and drops that `c`.
pub fn split_once(s: &str, c: char) -> (parts: Option<(String, String)>)
    ensures
        match parts {
            Some(p) => split_at_first(s@, c) == Some((p.0@, p.1@)),
            None => split_at_first(s@, c) is None,
        },
{
    match find_char(s, c) {
        Some(i) => {
            let end: usize = s.unicode_len();
            Some((s.substring_char(0, i).to_owned(), s.substring_char(i + 1, end).to_owned()))
        },
        None => None,
    }
}

/// A cut is determined by its parts: `key`, then the first `c`, then `value`.
pub proof fn lemma_split_at_first(key: Seq<char>, c: char, value: Seq<char>)
    requires
        !key.contains(c),
    ensures
        split_at_first(key + seq![c] + value, c) == Some((key, value)),
        before(key + seq![c] + value, c) == key,
{
    let s = key + seq![c] + value;
    s.index_of_first_ensures(c);
    assert(s[key.len() as int] == c);
    let i = s.index_of_first(c)->0;
    assert(i == key.len()) by {
        if i < key.len() {
            assert(key[i] == s[i]);
            assert(key.contains(c));
        }
    }
    assert(s.take(i) =~= key);
    assert(s.skip(i + 1) =~= value);
}

/// Text without `c` has no cut at `c`.
pub proof fn lemma_no_split(s: Seq<char>, c: char)
    requires
        !s.contains(c),
    ensures
        split_at_first(s, c) is None,
        before(s, c) == s,
{
    s.index_of_first_ensures(c);
}

/// The standard library's `String::push`: `c` is added at the end.
pub assume_specification[ String::push ](s: &mut String, c: char)
    ensures
        final(s)@ == old(s)@.push(c),
;

/// What the standard library's `String::from_utf8_lossy` makes of `bytes`.
pub uninterp spec fn lossy_text(bytes: Seq<u8>) -> Seq<char>;

/// The standard library's `String::from_utf8_lossy`, whose result depends on
/// the bytes alone and is the text that they encode where they are UTF-8.
/// What becomes of other bytes is left to that function.
#[verifier::external_body]
pub(crate) fn text_from_bytes(bytes: &[u8]) -> (text: String)
    ensures
        text@ == lossy_text(bytes@),
        valid_utf8(bytes@) ==> text@ == decode_utf8(bytes@),
{
    String::from_utf8_lossy(bytes).into_owned()
}

/// The UTF-8 encoding of `s`.
pub fn text_bytes(s: &str) -> (bytes: Vec<u8>)
    ensures
        bytes@ == encode_utf8(s@),
{
    vstd::slice::slice_to_vec(s.as_bytes())
}

/// The characters with the Unicode `White_Space` property.
pub open spec fn is_white_space(c: char) -> bool {
    ||| '\u{9}' <= c <= '\u{d}'
    ||| c == ' '
    ||| c == '\u{85}'
    ||| c == '\u{a0}'
    ||| c == '\u{1680}'
    ||| '\u{2000}' <= c <= '\u{200a}'
    ||| c == '\u{2028}'
    ||| c == '\u{2029}'
    ||| c == '\u{202f}'
    ||| c == '\u{205f}'
    ||| c == '\u{3000}'
}

/// Whether `c` is white space.
pub fn white_space(c: char) -> (yes: bool)
    ensures
        yes == is_white_space(c),
{
    ('\u{9}' <= c && c <= '\u{d}') || c == ' ' || c == '\u{85}' || c == '\u{a0}' || c == '\u{1680}'
        || ('\u{2000}' <= c && c <= '\u{200a}') || c == '\u{2028}' || c == '\u{2029}'
        || c == '\u{202f}' || c == '\u{205f}' || c == '\u{3000}'
}

/// `s` without its leading white space.
pub open spec fn trim_front(s: Seq<char>) -> Seq<char>
    decreases s.len(),
{
    if s.len() > 0 && is_white_space(s.first()) {
        trim_front(s.drop_first())
    } else {
        s
    }
}

/// `s` without its trailing white space.
pub open spec fn trim_back(s: Seq<char>) -> Seq<char>
    decreases s.len(),
{
    if s.len() > 0 && is_white_space(s.last()) {
        trim_back(s.drop_last())
    } else {
        s
    }
}

/// `s` without the white space at both ends.
pub open spec fn trimmed(s: Seq<char>) -> Seq<char> {
    trim_back(trim_front(s))
}

/// Drops the white space at both ends of `s`.
pub fn trim(s: &str) -> (core: String)
    ensures
        core@ == trimmed(s@),
{
    let text = characters(s);
    let mut from: usize = 0;
    proof {
        assert(s@.skip(0) =~= s@);
    }
    while from < text.len() && white_space(text[from])
        invariant
            text@ == s@,
            0 <= from <= text@.len(),
            trim_front(s@) == trim_front(s@.skip(from as int)),
        decreases text@.len() - from,
    {
        proof {
            assert(s@.skip(from as int).drop_first() =~= s@.skip(from + 1));
        }
        from = from + 1;
    }
    let mut to: usize = text.len();
    proof {
        assert(trim_front(s@) == s@.skip(from as int));
        assert(s@.subrange(from as int, to as int) =~= s@.skip(from as int));
    }
    while from < to && white_space(text[to - 1])
        invariant
            text@ == s@,
            0 <= from <= to <= text@.len(),
            trimmed(s@) == trim_back(s@.subrange(from as int, to as int)),
        decreases to,
    {
        proof {
            assert(s@.subrange(from as int, to as int).drop_last() =~= s@.subrange(
                from as int,
                to - 1,
            ));
        }
        to = to - 1;
    }
    s.substring_char(from, to).to_owned()
}

/// Lexicographic order on text: by the first character that differs, the
/// shorter text first where one begins with the other.
pub open spec fn precedes(a: Seq<char>, b: Seq<char>) -> bool
    decreases a.len(),
{
    if b.len() == 0 {
        false
    } else if a.len() == 0 {
        true
    } else if a[0] == b[0] {
        precedes(a.drop_first(), b.drop_first())
    } else {
        a[0] < b[0]
    }
}

/// Whether `a` comes before `b` in lexicographic order.
pub fn comes_before(a: &str, b: &str) -> (yes: bool)
    ensures
        yes == precedes(a@, b@),
{
    let left = characters(a);
    let right = characters(b);
    let mut i: usize = 0;
    proof {
        assert(a@.skip(0) =~= a@);
        assert(b@.skip(0) =~= b@);
    }
    while i < left.len() && i < right.len() && left[i] == right[i]
        invariant
            left@ == a@,
            right@ == b@,
            i <= a@.len(),
            i <= b@.len(),
            precedes(a@, b@) == precedes(a@.skip(i as int), b@.skip(i as int)),
        decreases a@.len() - i,
    {
        proof {
            assert(a@.skip(i as int).drop_first() =~= a@.skip(i + 1));
            assert(b@.skip(i as int).drop_first() =~= b@.skip(i + 1));
        }
        i = i + 1;
    }
    if i >= right.len() {
        false
    } else if i >= left.len() {
        true
    } else {
        left[i] < right[i]
    }
}

/// Lexicographic order is a strict total order.
pub proof fn lemma_precedes_total(a: Seq<char>, b: Seq<char>)
    ensures
        !precedes(a, a),
        !(precedes(a, b) && precedes(b, a)),
        a != b ==> precedes(a, b) || precedes(b, a),
    decreases a.len(),
{
    if a.len() > 0 {
        lemma_precedes_total(a.drop_first(), a.drop_first());
        if b.len() > 0 {
            lemma_precedes_total(a.drop_first(), b.drop_first());
            if a[0] == b[0] && a.drop_first() == b.drop_first() {
                assert(a =~= seq![a[0]] + a.drop_first());
                assert(b =~= seq![b[0]] + b.drop_first());
            }
        }
    } else if b.len() == 0 {
        assert(a =~= b);
    }
}

/// Lexicographic order is transitive.
pub proof fn lemma_precedes_transitive(a: Seq<char>, b: Seq<char>, c: Seq<char>)
    requires
        precedes(a, b),
        precedes(b, c),
    ensures
        precedes(a, c),
    decreases a.len(),
{
    if a.len() > 0 && a[0] == b[0] && b[0] == c[0] {
        lemma_precedes_transitive(a.drop_first(), b.drop_first(), c.drop_first());
    }
}

/// The decimal digit for `d`.
pub open spec fn digit(d: int) -> char {
    (48 + d) as char
}

/// `n` in decimal notation, without leading zeros.
pub open spec fn decimal(n: nat) -> Seq<char>
    decreases n,
{
    if n < 10 {
        seq![digit(n as int)]
    } else {
        decimal(n / 10).push(digit((n % 10) as int))
    }
}

/// Writes `n` in decimal notation.
pub fn decimal_text(n: u16) -> (text: String)
    ensures
        text@ == decimal(n as nat),
    decreases n,
{
    let last: char = (48u8 + (n % 10) as u8) as char;
    let mut text = if n < 10 {
        String::new()
    } else {
        decimal_text(n / 10)
    };
    text.push(last);
    proof {
        if n < 10 {
            assert(text@ =~= decimal(n as nat));
        }
    }
    text
}

/// A list of pairs says, in order, what its pairs say.
pub proof fn law_pairs_are_texts(list: Seq<(String, String)>, i: int)
    requires
        0 <= i < list.len(),
    ensures
        pairs(list).len() == list.len(),
        pairs(list)[i] == (list[i].0@, list[i].1@),
{
}

/// Trimming takes white space from both ends, all of it, and nothing else: what
/// is left begins and ends with something else, and only white space stood
/// before and behind it.
pub proof fn law_trimming_takes_white_space(s: &str, core: String) -> (cut: (int, int))
    requires
        call_ensures(trim, (s,), core),
    ensures
        0 <= cut.0 <= cut.1 <= s@.len(),
        core@ == s@.subrange(cut.0, cut.1),
        forall|i: int| 0 <= i < cut.0 || cut.1 <= i < s@.len() ==> is_white_space(#[trigger] s@[i]),
        core@.len() > 0 ==> !is_white_space(core@.first()) && !is_white_space(core@.last()),
{
    let front = lemma_trim_front(s@);
    let middle = trim_front(s@);
    let back = lemma_trim_back(middle);
    let cut = (front, front + back);
    assert(core@ =~= s@.subrange(cut.0, cut.1));
    assert forall|i: int| 0 <= i < cut.0 || cut.1 <= i < s@.len() implies is_white_space(
        #[trigger] s@[i],
    ) by {
        if cut.1 <= i {
            assert(middle[i - front] == s@[i]);
        }
    }
    if core@.len() > 0 {
        assert(core@.first() == middle.first());
        assert(core@.last() == trim_back(middle).last());
    }
    cut
}

proof fn lemma_trim_front(s: Seq<char>) -> (n: int)
    ensures
        0 <= n <= s.len(),
        trim_front(s) == s.skip(n),
        forall|i: int| 0 <= i < n ==> is_white_space(#[trigger] s[i]),
        trim_front(s).len() > 0 ==> !is_white_space(trim_front(s).first()),
    decreases s.len(),
{
    if s.len() > 0 && is_white_space(s.first()) {
        let rest = s.drop_first();
        let m = lemma_trim_front(rest);
        assert(rest.skip(m) =~= s.skip(m + 1));
        assert forall|i: int| 0 <= i < m + 1 implies is_white_space(#[trigger] s[i]) by {
            if i > 0 {
                assert(rest[i - 1] == s[i]);
            }
        }
        m + 1
    } else {
        assert(s.skip(0) =~= s);
        0
    }
}

proof fn lemma_trim_back(s: Seq<char>) -> (n: int)
    ensures
        0 <= n <= s.len(),
        trim_back(s) == s.take(n),
        forall|i: int| n <= i < s.len() ==> is_white_space(#[trigger] s[i]),
        trim_back(s).len() > 0 ==> !is_white_space(trim_back(s).last()),
    decreases s.len(),
{
    if s.len() > 0 && is_white_space(s.last()) {
        let rest = s.drop_last();
        let n = lemma_trim_back(rest);
        assert(rest.take(n) =~= s.take(n));
        assert forall|i: int| n <= i < s.len() implies is_white_space(#[trigger] s[i]) by {
            if i < rest.len() {
                assert(rest[i] == s[i]);
            }
        }
        n
    } else {
        assert(s.take(s.len() as int) =~= s);
        s.len() as int
    }
}

/// White space is what Unicode says it is: 25 characters, six of them ASCII.
pub proof fn law_white_space_is_that_of_unicode(c: char, yes: bool)
    requires
        call_ensures(white_space, (c,), yes),
    ensures
        c <= '\u{7f}' ==> (yes <==> c == ' ' || c == '\t' || c == '\n' || c == '\u{b}' || c
            == '\u{c}' || c == '\r'),
        c > '\u{7f}' ==> (yes <==> c == '\u{85}' || c == '\u{a0}' || c == '\u{1680}' || c
            == '\u{2000}' || c == '\u{2001}' || c == '\u{2002}' || c == '\u{2003}' || c
            == '\u{2004}' || c == '\u{2005}' || c == '\u{2006}' || c == '\u{2007}' || c
            == '\u{2008}' || c == '\u{2009}' || c == '\u{200a}' || c == '\u{2028}' || c
            == '\u{2029}' || c == '\u{202f}' || c == '\u{205f}' || c == '\u{3000}'),
{
}

/// Of two texts, the one with the smaller character at the first place where they
/// differ comes first; a text comes before its continuations.
pub proof fn law_order_of_texts(a: &str, b: &str, common: int, yes: bool)
    requires
        0 <= common <= a@.len(),
        common <= b@.len(),
        a@.take(common) == b@.take(common),
        common == a@.len() || common == b@.len() || a@[common] != b@[common],
        call_ensures(comes_before, (a, b), yes),
    ensures
        common < a@.len() && common < b@.len() ==> yes == (a@[common] < b@[common]),
        common == a@.len() ==> yes == (a@.len() < b@.len()),
        common == b@.len() ==> !yes,
{
    lemma_first_difference(a@, b@, common);
}

proof fn lemma_first_difference(a: Seq<char>, b: Seq<char>, common: int)
    requires
        0 <= common <= a.len(),
        common <= b.len(),
        a.take(common) == b.take(common),
        common == a.len() || common == b.len() || a[common] != b[common],
    ensures
        precedes(a, b) == (common < b.len() && (common == a.len() || a[common] < b[common])),
    decreases common,
{
    if common > 0 {
        assert(a.take(common)[0] == a[0]);
        assert(b.take(common)[0] == b[0]);
        assert(a.drop_first().take(common - 1) =~= a.take(common).drop_first());
        assert(b.drop_first().take(common - 1) =~= b.take(common).drop_first());
        if common < a.len() {
            assert(a.drop_first()[common - 1] == a[common]);
        }
        if common < b.len() {
            assert(b.drop_first()[common - 1] == b[common]);
        }
        lemma_first_difference(a.drop_first(), b.drop_first(), common - 1);
    }
}

/// The number that a text of decimal digits stands for.
pub open spec fn number(text: Seq<char>) -> int
    decreases text.len(),
{
    if text.len() == 0 {
        0
    } else {
        number(text.drop_last()) * 10 + (text.last() as int - '0' as int)
    }
}

/// A number is written in decimal digits that stand for it, without leading zeros.
pub proof fn law_numbers_read_back(n: u16, text: String)
    requires
        call_ensures(decimal_text, (n,), text),
    ensures
        number(text@) == n,
        text@.len() > 0,
        forall|i: int| 0 <= i < text@.len() ==> '0' <= #[trigger] text@[i] <= '9',
        text@.len() > 1 ==> text@.first() != '0',
{
    lemma_decimal(n as nat);
}

proof fn lemma_decimal(n: nat)
    ensures
        number(decimal(n)) == n,
        decimal(n).len() > 0,
        forall|i: int| 0 <= i < decimal(n).len() ==> '0' <= #[trigger] decimal(n)[i] <= '9',
        n > 0 ==> decimal(n).first() != '0',
    decreases n,
{
    let text = decimal(n);
    if n < 10 {
        assert(text.drop_last() =~= Seq::<char>::empty());
        assert(number(text.drop_last()) == 0);
    } else {
        lemma_decimal(n / 10);
        assert(text.drop_last() =~= decimal(n / 10));
        assert forall|i: int| 0 <= i < text.len() implies '0' <= #[trigger] text[i] <= '9' by {
            if i < decimal(n / 10).len() {
                assert(text[i] == decimal(n / 10)[i]);
            }
        }
        assert(text.first() == decimal(n / 10).first());
    }
}

/// A text is cut at the first separator: what stands before it holds none, and
/// putting the parts together again gives the text. A text without separator is
/// not cut.
pub proof fn law_cuts_are_at_the_first_separator(
    s: &str,
    c: char,
    parts: Option<(String, String)>,
    head: String,
)
    requires
        call_ensures(split_once, (s, c), parts),
        call_ensures(take_before, (s, c), head),
    ensures
        parts is Some <==> s@.contains(c),
        parts is Some ==> {
            &&& !(parts->0).0@.contains(c)
            &&& (parts->0).0@ + seq![c] + (parts->0).1@ == s@
            &&& head@ == (parts->0).0@
        },
        parts is None ==> head@ == s@,
{
    s@.index_of_first_ensures(c);
    if parts is Some {
        let i = s@.index_of_first(c)->0;
        assert((parts->0).0@ + seq![c] + (parts->0).1@ =~= s@);
        assert forall|j: int| 0 <= j < i implies s@.take(i)[j] != c by {
            assert(s@[j] != c);
        }
        assert(!(parts->0).0@.contains(c));
    }
}

/// A text begins with another one if that is how it goes on from its beginning.
pub proof fn law_prefixes_are_beginnings(s: &str, prefix: &str, rest: Seq<char>, yes: bool)
    requires
        call_ensures(has_prefix, (s, prefix), yes),
    ensures
        s@ == prefix@ + rest ==> yes,
        yes ==> s@ == prefix@ + s@.skip(prefix@.len() as int),
{
    if s@ == prefix@ + rest {
        assert(s@.subrange(0, prefix@.len() as int) =~= prefix@);
    }
    if yes {
        assert(s@ =~= prefix@ + s@.skip(prefix@.len() as int));
    }
}

} // verus!
