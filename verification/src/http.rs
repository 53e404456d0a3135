//! What HTTP allows in messages.

use vstd::multiset::Multiset;
use vstd::prelude::*;

use crate::text::pairs;

verus! {

/// The characters of an HTTP token: those of a method or a header name.
pub open spec fn is_token_char(c: char) -> bool {
    ||| 'a' <= c <= 'z'
    ||| 'A' <= c <= 'Z'
    ||| '0' <= c <= '9'
    ||| c == '!' || c == '#' || c == '$' || c == '%' || c == '&' || c == '\''
    ||| c == '*' || c == '+' || c == '-' || c == '.'
    ||| c == '^' || c == '_' || c == '`' || c == '|' || c == '~'
}

/// An HTTP token.
pub open spec fn is_token(text: Seq<char>) -> bool {
    &&& text.len() > 0
    &&& forall|i: int| 0 <= i < text.len() ==> is_token_char(#[trigger] text[i])
}

/// A header name: a token of at most 65535 characters.
pub open spec fn is_header_name(text: Seq<char>) -> bool {
    is_token(text) && text.len() <= 65535
}

/// A header value: no control characters but tabs.
pub open spec fn is_header_value(text: Seq<char>) -> bool {
    forall|i: int|
        0 <= i < text.len() ==> (' ' <= #[trigger] text[i] && text[i] != '\u{7f}') || text[i]
            == '\t'
}

/// A status code: three digits.
pub open spec fn is_status(status: u16) -> bool {
    100 <= status <= 999
}

/// `http`'s `FromStr` for `Method`, which `reqwest` re-exports: it accepts
/// exactly the tokens.
#[verifier::external_body]
pub(crate) fn method_is_valid(method: &str) -> (valid: bool)
    ensures
        valid == is_token(method@),
{
    method.parse::<reqwest::Method>().is_ok()
}

/// How many headers a response can hold whatever they are.
pub const HEADERS_ALWAYS_HELD: usize = 6554;

/// `http`'s builder of responses. Nothing is claimed of it but by [`built`].
#[verifier::external_type_specification]
#[verifier::external_body]
pub struct ExBuilder(hyper::http::response::Builder);

/// The status and the headers that a builder holds, the names in lower case;
/// `None` if something was wrong with what it was given.
pub uninterp spec fn built(builder: hyper::http::response::Builder) -> Option<
    (u16, Multiset<(Seq<char>, Seq<char>)>),
>;

/// `text` with its ASCII letters in lower case.
pub open spec fn lowered(text: Seq<char>) -> Seq<char> {
    text.map_values(|c: char| if 'A' <= c <= 'Z' { (c as int + 32) as char } else { c })
}

/// `http`'s `Response::builder`, then `Builder::status`: a builder with this
/// status, which must be one of 100 to 999, and without headers.
#[verifier::external_body]
pub(crate) fn builder_with_status(status: u16) -> (builder: hyper::http::response::Builder)
    ensures
        built(builder) == if is_status(status) {
            Some((status, Multiset::<(Seq<char>, Seq<char>)>::empty()))
        } else {
            None
        },
{
    hyper::Response::builder().status(status)
}

/// `http`'s `Builder::header`: one more header. Its name must be a token of at
/// most 65535 characters, its value may hold no control characters of ASCII but
/// tabs, and there must be room for it. There always is where the builder holds
/// fewer than 6554 headers: its table of 32768 places is only given up once a
/// fifth of them is taken. Whether there is room for more depends on how the
/// names hash, in part by chance, and is left open.
#[verifier::external_body]
pub(crate) fn builder_with_header(
    builder: hyper::http::response::Builder,
    name: &str,
    value: &str,
) -> (more: hyper::http::response::Builder)
    ensures
        match built(builder) {
            Some((status, headers)) => {
                let with = Some((status, headers.insert((lowered(name@), value@))));
                if !is_header_name(name@) || !is_header_value(value@) {
                    built(more) is None
                } else if headers.len() < HEADERS_ALWAYS_HELD {
                    built(more) == with
                } else {
                    built(more) is None || built(more) == with
                }
            },
            None => built(more) is None,
        },
{
    builder.header(name, value)
}

/// `http`'s `Builder::headers_ref`, which is `None` exactly if something was
/// wrong with what the builder was given.
#[verifier::external_body]
pub(crate) fn is_built(builder: &hyper::http::response::Builder) -> (yes: bool)
    ensures
        yes == (built(*builder) is Some),
{
    builder.headers_ref().is_some()
}

/// Whether every byte is visible ASCII, a space or a tab.
pub open spec fn is_visible(bytes: Seq<u8>) -> bool {
    forall|i: int| 0 <= i < bytes.len() ==> 32 <= #[trigger] bytes[i] < 127 || bytes[i] == 9
}

/// ASCII bytes as text.
pub open spec fn ascii_text(bytes: Seq<u8>) -> Seq<char> {
    bytes.map_values(|b: u8| b as char)
}

/// A header value as text, if all of it is visible ASCII.
pub fn visible_text(value: &[u8]) -> (text: Option<String>)
    ensures
        match text {
            Some(t) => is_visible(value@) && t@ == ascii_text(value@),
            None => !is_visible(value@),
        },
{
    let mut text = String::new();
    for i in 0..value.len()
        invariant
            forall|j: int|
                0 <= j < i ==> 32 <= #[trigger] value@[j] < 127 || value@[j] == 9,
            text@ == ascii_text(value@.take(i as int)),
    {
        let b: u8 = value[i];
        if !((32 <= b && b < 127) || b == 9) {
            proof {
                assert(!(32 <= value@[i as int] < 127 || value@[i as int] == 9));
            }
            return None;
        }
        text.push(b as char);
        proof {
            assert(ascii_text(value@.take(i + 1)) =~= ascii_text(value@.take(i as int)).push(
                b as char,
            ));
        }
    }
    proof {
        assert(value@.take(value@.len() as int) =~= value@);
    }
    Some(text)
}

/// The headers of `list` whose values are visible ASCII, in order, as text.
pub open spec fn visible(list: Seq<(String, Vec<u8>)>) -> Seq<(Seq<char>, Seq<char>)>
    decreases list.len(),
{
    if list.len() == 0 {
        Seq::empty()
    } else {
        let earlier = visible(list.drop_last());
        let (name, value) = list.last();
        if is_visible(value@) {
            earlier.push((name@, ascii_text(value@)))
        } else {
            earlier
        }
    }
}

/// Keeps the headers whose values are visible ASCII, as text.
pub fn visible_headers(list: &Vec<(String, Vec<u8>)>) -> (headers: Vec<(String, String)>)
    ensures
        pairs(headers@) == visible(list@),
{
    let mut headers: Vec<(String, String)> = Vec::new();
    proof {
        assert(pairs(headers@) =~= visible(list@.take(0)));
    }
    for i in 0..list.len()
        invariant
            pairs(headers@) == visible(list@.take(i as int)),
    {
        let ghost before = headers@;
        proof {
            assert(list@.take(i + 1).drop_last() =~= list@.take(i as int));
            assert(list@.take(i + 1).last() == list@[i as int]);
        }
        match visible_text(list[i].1.as_slice()) {
            Some(value) => {
                headers.push((list[i].0.clone(), value));
                proof {
                    assert(pairs(headers@) =~= pairs(before).push(
                        (list@[i as int].0@, value@),
                    ));
                }
            },
            None => {},
        }
    }
    proof {
        assert(list@.take(list@.len() as int) =~= list@);
    }
    headers
}

/// Visible text survives as a header value: what the bytes of such a text are
/// read back as is that text.
pub proof fn law_visible_text_reads_back(text: Seq<char>)
    requires
        forall|i: int| 0 <= i < text.len() ==> ' ' <= #[trigger] text[i] <= '~' || text[i] == '\t',
    ensures
        is_header_value(text),
        is_visible(vstd::utf8::encode_utf8(text)),
        ascii_text(vstd::utf8::encode_utf8(text)) == text,
    decreases text.len(),
{
    assert forall|i: int| 0 <= i < text.len() implies (' ' <= #[trigger] text[i] && text[i]
        != '\u{7f}') || text[i] == '\t' by {
        assert(' ' <= text[i] <= '~' || text[i] == '\t');
    }
    vstd::utf8::is_ascii_chars_encode_utf8(text);
    let bytes = vstd::utf8::encode_utf8(text);
    assert forall|i: int| 0 <= i < bytes.len() implies 32 <= #[trigger] bytes[i] < 127 || bytes[i]
        == 9 by {
        assert(' ' <= text[i] <= '~' || text[i] == '\t');
    }
    assert(ascii_text(bytes) =~= text);
}

/// A header value is text exactly if all its bytes are visible ASCII, spaces or
/// tabs; the text has a character for each byte, with the same code.
pub proof fn law_visible_values_are_text(value: &[u8], text: Option<String>)
    requires
        call_ensures(visible_text, (value,), text),
    ensures
        text is Some <==> forall|i: int|
            0 <= i < value@.len() ==> 32 <= #[trigger] value@[i] <= 126 || value@[i] == 9,
        text is Some ==> text->0@.len() == value@.len(),
        text is Some ==> forall|i: int|
            0 <= i < value@.len() ==> (#[trigger] text->0@[i]) as int == value@[i] as int,
{
    if text is Some {
        assert forall|i: int| 0 <= i < value@.len() implies (#[trigger] text->0@[i]) as int
            == value@[i] as int by {
            assert(32 <= value@[i] < 127 || value@[i] == 9);
        }
        assert forall|i: int| 0 <= i < value@.len() implies 32 <= #[trigger] value@[i] <= 126
            || value@[i] == 9 by {}
    } else {
        let i = choose|i: int|
            0 <= i < value@.len() && !(32 <= #[trigger] value@[i] < 127 || value@[i] == 9);
        assert(!(32 <= value@[i] <= 126 || value@[i] == 9));
    }
}

/// The headers that are text are kept, one by one and in order, under their
/// names; the others are left out.
pub proof fn law_visible_headers_are_kept(
    list: Vec<(String, Vec<u8>)>,
    name: String,
    value: Vec<u8>,
    more: Vec<(String, Vec<u8>)>,
    headers: Vec<(String, String)>,
    longer: Vec<(String, String)>,
    slice: &[u8],
    text: Option<String>,
)
    requires
        more@ == list@.push((name, value)),
        call_ensures(visible_headers, (&list,), headers),
        call_ensures(visible_headers, (&more,), longer),
        slice@ == value@,
        call_ensures(visible_text, (slice,), text),
    ensures
        list@.len() == 0 ==> headers@.len() == 0,
        text is Some ==> {
            &&& longer@.len() == headers@.len() + 1
            &&& longer@.last().0@ == name@
            &&& longer@.last().1@ == text->0@
        },
        text is None ==> longer@.len() == headers@.len(),
        forall|i: int|
            0 <= i < headers@.len() ==> (#[trigger] longer@[i]).0@ == headers@[i].0@
                && longer@[i].1@ == headers@[i].1@,
{
    assert(more@.drop_last() =~= list@);
    assert(more@.last() == (name, value));
    assert(pairs(headers@).len() == headers@.len());
    assert(pairs(longer@).len() == longer@.len());
    assert forall|i: int| 0 <= i < headers@.len() implies (#[trigger] longer@[i]).0@
        == headers@[i].0@ && longer@[i].1@ == headers@[i].1@ by {
        assert(pairs(longer@)[i] == pairs(headers@)[i]);
    }
    if longer@.len() > headers@.len() {
        let last = longer@.len() - 1;
        assert(pairs(longer@)[last] == (longer@[last].0@, longer@[last].1@));
    }
}

} // verus!
