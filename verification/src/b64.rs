//! Base64: what the two encodings write, and that they can be read back.
use vstd::prelude::*;

verus! {

/// The sign for a value below 64, in the URL-safe or the standard alphabet.
pub open spec fn b64_digit(v: int, url: bool) -> char {
    if v < 26 {
        ('A' as int + v) as char
    } else if v < 52 {
        ('a' as int + v - 26) as char
    } else if v < 62 {
        ('0' as int + v - 52) as char
    } else if v == 62 {
        if url {
            '-'
        } else {
            '+'
        }
    } else if url {
        '_'
    } else {
        '/'
    }
}

/// The base64 text of some bytes: four signs for every three bytes. What is left over at the end
/// gives two or three signs, which the standard encoding pads to four and the URL-safe one does
/// not.
pub open spec fn b64_text(b: Seq<u8>, url: bool) -> Seq<char>
    decreases b.len(),
{
    if b.len() == 0 {
        Seq::empty()
    } else if b.len() == 1 {
        seq![b64_digit(b[0] as int / 4, url), b64_digit(b[0] as int % 4 * 16, url)] + if url {
            seq![]
        } else {
            seq!['=', '=']
        }
    } else if b.len() == 2 {
        seq![
            b64_digit(b[0] as int / 4, url),
            b64_digit(b[0] as int % 4 * 16 + b[1] as int / 16, url),
            b64_digit(b[1] as int % 16 * 4, url),
        ] + if url {
            seq![]
        } else {
            seq!['=']
        }
    } else {
        seq![
            b64_digit(b[0] as int / 4, url),
            b64_digit(b[0] as int % 4 * 16 + b[1] as int / 16, url),
            b64_digit(b[1] as int % 16 * 4 + b[2] as int / 64, url),
            b64_digit(b[2] as int % 64, url),
        ] + b64_text(b.skip(3), url)
    }
}

/// The URL-safe base64 text of `bytes`, without padding.
pub open spec fn b64url_text(bytes: Seq<u8>) -> Seq<char> {
    b64_text(bytes, true)
}

/// The standard base64 text of `bytes`, with padding.
pub open spec fn b64std_text(bytes: Seq<u8>) -> Seq<char> {
    b64_text(bytes, false)
}

/// What unpadded URL-safe base64 text decodes to, if it is such text.
pub open spec fn b64url_bytes(text: Seq<char>) -> Option<Seq<u8>> {
    if exists|b: Seq<u8>| #[trigger] b64url_text(b) == text {
        Some(choose|b: Seq<u8>| #[trigger] b64url_text(b) == text)
    } else {
        None
    }
}

/// What padded standard base64 text decodes to, if it is such text.
pub open spec fn b64std_bytes(text: Seq<char>) -> Option<Seq<u8>> {
    if exists|b: Seq<u8>| #[trigger] b64std_text(b) == text {
        Some(choose|b: Seq<u8>| #[trigger] b64std_text(b) == text)
    } else {
        None
    }
}

/// A letter, a digit or one of the five signs of the two alphabets.
pub open spec fn is_b64_char(c: char) -> bool {
    ||| 'A' <= c <= 'Z'
    ||| 'a' <= c <= 'z'
    ||| '0' <= c <= '9'
    ||| c == '+'
    ||| c == '/'
    ||| c == '-'
    ||| c == '_'
    ||| c == '='
}

proof fn lemma_digit(u: int, v: int, url: bool, other: bool)
    requires
        0 <= u < 64,
        0 <= v < 64,
    ensures
        is_b64_char(b64_digit(u, url)),
        b64_digit(u, url) != '=',
        b64_digit(u, url) == b64_digit(v, other) ==> u == v,
{
}

/// Base64 text has at most four signs for every three bytes, and four more.
pub proof fn lemma_b64_len(b: Seq<u8>, url: bool)
    ensures
        3 * b64_text(b, url).len() <= 4 * b.len() + 8,
    decreases b.len(),
{
    if b.len() >= 3 {
        lemma_b64_len(b.skip(3), url);
    }
}

/// Base64 text holds only signs of the alphabets and padding.
pub proof fn lemma_b64_chars(b: Seq<u8>, url: bool)
    ensures
        forall|i: int|
            0 <= i < b64_text(b, url).len() ==> is_b64_char(#[trigger] b64_text(b, url)[i]),
    decreases b.len(),
{
    if b.len() >= 3 {
        let rest = b64_text(b.skip(3), url);
        lemma_b64_chars(b.skip(3), url);
        assert forall|i: int| 0 <= i < b64_text(b, url).len() implies is_b64_char(
            #[trigger] b64_text(b, url)[i],
        ) by {
            if i >= 4 {
                assert(b64_text(b, url)[i] == rest[i - 4]);
            }
        }
    }
}

/// How the text of some bytes begins and, for up to two bytes, ends.
proof fn lemma_b64_shape(b: Seq<u8>, url: bool)
    ensures
        b.len() == 0 ==> b64_text(b, url).len() == 0,
        b.len() >= 1 ==> b64_text(b, url).len() >= 2 && b64_text(b, url)[0] == b64_digit(
            b[0] as int / 4,
            url,
        ),
        b.len() == 1 ==> {
            &&& b64_text(b, url)[1] == b64_digit(b[0] as int % 4 * 16, url)
            &&& if url {
                b64_text(b, url).len() == 2
            } else {
                b64_text(b, url).len() == 4 && b64_text(b, url)[2] == '='
            }
        },
        b.len() >= 2 ==> b64_text(b, url)[1] == b64_digit(
            b[0] as int % 4 * 16 + b[1] as int / 16,
            url,
        ) && b64_text(b, url)[2] != '=',
        b.len() == 2 ==> {
            &&& b64_text(b, url)[2] == b64_digit(b[1] as int % 16 * 4, url)
            &&& if url {
                b64_text(b, url).len() == 3
            } else {
                b64_text(b, url).len() == 4 && b64_text(b, url)[3] == '='
            }
        },
        b.len() >= 3 ==> {
            &&& b64_text(b, url)[2] == b64_digit(b[1] as int % 16 * 4 + b[2] as int / 64, url)
            &&& b64_text(b, url)[3] == b64_digit(b[2] as int % 64, url)
            &&& b64_text(b, url)[3] != '='
            &&& b64_text(b, url).len() == 4 + b64_text(b.skip(3), url).len()
            &&& b64_text(b, url).skip(4) == b64_text(b.skip(3), url)
        },
{
    let t = b64_text(b, url);
    if b.len() == 2 {
        lemma_digit(b[1] as int % 16 * 4, 0, url, url);
    } else if b.len() >= 3 {
        lemma_digit(b[1] as int % 16 * 4 + b[2] as int / 64, 0, url, url);
        lemma_digit(b[2] as int % 64, 0, url, url);
        assert(t.skip(4) =~= b64_text(b.skip(3), url));
    }
}

/// Two texts are equal, in one alphabet or the other, only where the bytes are.
pub proof fn lemma_b64_injective(a: Seq<u8>, url: bool, b: Seq<u8>, other: bool)
    requires
        b64_text(a, url) == b64_text(b, other),
    ensures
        a == b,
    decreases a.len(),
{
    lemma_b64_shape(a, url);
    lemma_b64_shape(b, other);
    if a.len() > 0 && b.len() > 0 {
        lemma_digit(a[0] as int / 4, b[0] as int / 4, url, other);
    }
    if a.len() == 1 && b.len() == 1 {
        lemma_digit(a[0] as int % 4 * 16, b[0] as int % 4 * 16, url, other);
        assert(a =~= b);
    } else if a.len() >= 2 && b.len() >= 2 {
        lemma_digit(
            a[0] as int % 4 * 16 + a[1] as int / 16,
            b[0] as int % 4 * 16 + b[1] as int / 16,
            url,
            other,
        );
        assert(a[0] == b[0]);
        if a.len() == 2 && b.len() == 2 {
            lemma_digit(a[1] as int % 16 * 4, b[1] as int % 16 * 4, url, other);
            assert(a[1] == b[1]);
            assert(a =~= b);
        } else if a.len() >= 3 && b.len() >= 3 {
            lemma_digit(
                a[1] as int % 16 * 4 + a[2] as int / 64,
                b[1] as int % 16 * 4 + b[2] as int / 64,
                url,
                other,
            );
            lemma_digit(a[2] as int % 64, b[2] as int % 64, url, other);
            assert(a[1] == b[1]);
            assert(a[2] == b[2]);
            lemma_b64_injective(a.skip(3), url, b.skip(3), other);
            assert(a =~= a.take(3) + a.skip(3));
            assert(b =~= b.take(3) + b.skip(3));
            assert(a.take(3) =~= b.take(3));
        }
    } else {
        assert(a =~= b);
    }
}

/// What either encoding writes, its decoding reads back; and where the URL-safe decoding accepts a
/// standard text at all, it reads the same bytes.
pub proof fn law_base64_round_trip(b: Seq<u8>)
    ensures
        b64url_bytes(b64url_text(b)) == Some(b),
        b64std_bytes(b64std_text(b)) == Some(b),
        b64url_bytes(b64std_text(b)) is Some ==> b64url_bytes(b64std_text(b)) == Some(b),
{
    let url = choose|c: Seq<u8>| #[trigger] b64url_text(c) == b64url_text(b);
    lemma_b64_injective(url, true, b, true);
    let std_ = choose|c: Seq<u8>| #[trigger] b64std_text(c) == b64std_text(b);
    lemma_b64_injective(std_, false, b, false);
    if exists|c: Seq<u8>| #[trigger] b64url_text(c) == b64std_text(b) {
        let mixed = choose|c: Seq<u8>| #[trigger] b64url_text(c) == b64std_text(b);
        lemma_b64_injective(mixed, true, b, false);
    }
}

} // verus!
