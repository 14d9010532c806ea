//! Uuids: random ones for new servers and tokens, parsed ones from
//! requests, and their simple text form.

use vstd::prelude::*;

verus! {

/// What `uuid::Uuid::parse_str` makes of a text: the uuid as a 128-bit
/// number, or the text of the error it reports.
pub uninterp spec fn parsed_uuid(text: Seq<char>) -> Result<u128, Seq<char>>;

/// When the text is the hyphenated or the simple form of a uuid, the
/// result is that uuid.
pub open spec fn reads_back(text: Seq<char>, r: Result<u128, String>) -> bool {
    &&& forall|u: u128| #[trigger] hyphenated(u) == text ==> (r matches Ok(v) && v == u)
    &&& forall|u: u128| #[trigger] simple(u) == text ==> (r matches Ok(v) && v == u)
}

/// Calls `uuid::Uuid::parse_str` and takes the uuid as a number, or the
/// error as its text. Trusted: the result is `parsed_uuid` of the text,
/// which depends on the text alone; the hyphenated and the simple form of
/// a uuid (lower-case hexadecimal, as the crate prints them) parse back to
/// that uuid. Which other texts are accepted, and the wording of the
/// errors, are not stated.
#[verifier::external_body]
pub(crate) fn parse_uuid(text: &str) -> (r: Result<u128, String>)
    ensures
        match r {
            Ok(u) => parsed_uuid(text@) == Ok::<u128, Seq<char>>(u),
            Err(e) => parsed_uuid(text@) == Err::<u128, Seq<char>>(e@),
        },
        reads_back(text@, r),
{
    match uuid::Uuid::parse_str(text) {
        Ok(u) => Ok(u.as_u128()),
        Err(e) => Err(e.to_string()),
    }
}

/// Calls `uuid::Uuid::new_v4` and takes the uuid as a number.
/// Trusted: the result is random; it carries the version 4 and the
/// RFC 4122 variant bits, which the crate's source sets.
#[verifier::external_body]
pub(crate) fn random_uuid() -> (r: u128)
    ensures
        (r >> 76u128) & 0xfu128 == 4,
        (r >> 62u128) & 0x3u128 == 2,
{
    uuid::Uuid::new_v4().as_u128()
}

/// The character of a hexadecimal digit, lower case.
pub open spec fn hex_char(d: nat) -> char {
    if d < 10 {
        crate::text::digit_char(d)
    } else if d == 10 {
        'a'
    } else if d == 11 {
        'b'
    } else if d == 12 {
        'c'
    } else if d == 13 {
        'd'
    } else if d == 14 {
        'e'
    } else {
        'f'
    }
}

/// The last `count` hexadecimal digits of `n`, with leading zeros.
pub open spec fn hex_digits(n: nat, count: nat) -> Seq<char>
    decreases count,
{
    if count == 0 {
        Seq::empty()
    } else {
        hex_digits(n / 16, (count - 1) as nat).push(hex_char(n % 16))
    }
}

/// The simple form of a uuid: its 32 hexadecimal digits in lower case.
pub open spec fn simple(u: u128) -> Seq<char> {
    hex_digits(u as nat, 32)
}

fn hex_str(d: u128) -> (r: &'static str)
    requires
        d < 16,
    ensures
        r@ == seq![hex_char(d as nat)],
{
    if d < 10 {
        crate::text::digit_str(d as usize)
    } else if d == 10 {
        proof {
            reveal_strlit("a");
        }
        "a"
    } else if d == 11 {
        proof {
            reveal_strlit("b");
        }
        "b"
    } else if d == 12 {
        proof {
            reveal_strlit("c");
        }
        "c"
    } else if d == 13 {
        proof {
            reveal_strlit("d");
        }
        "d"
    } else if d == 14 {
        proof {
            reveal_strlit("e");
        }
        "e"
    } else {
        proof {
            reveal_strlit("f");
        }
        "f"
    }
}

fn push_hex(s: &mut String, n: u128, count: usize)
    ensures
        final(s)@ == old(s)@ + hex_digits(n as nat, count as nat),
    decreases count,
{
    if count == 0 {
        proof {
            assert(old(s)@ + hex_digits(n as nat, 0) =~= old(s)@);
        }
    } else {
        push_hex(s, n / 16, count - 1);
        s.append(hex_str(n % 16));
        proof {
            assert(old(s)@ + hex_digits(n as nat, count as nat) =~= old(s)@ + hex_digits(
                (n / 16) as nat,
                (count - 1) as nat,
            ) + seq![hex_char((n % 16) as nat)]);
        }
    }
}

/// The hyphenated form of a uuid, as `uuid::Uuid` displays it: its 32
/// hexadecimal digits in lower case, in groups of 8, 4, 4, 4 and 12 joined
/// by hyphens.
pub open spec fn hyphenated(u: u128) -> Seq<char> {
    let d = simple(u);
    d.subrange(0, 8) + seq!['-'] + d.subrange(8, 12) + seq!['-'] + d.subrange(12, 16) + seq!['-']
        + d.subrange(16, 20) + seq!['-'] + d.subrange(20, 32)
}

/// `count` digits take `count` characters.
proof fn lemma_hex_digits_len(n: nat, count: nat)
    ensures
        hex_digits(n, count).len() == count,
    decreases count,
{
    if count > 0 {
        lemma_hex_digits_len(n / 16, (count - 1) as nat);
    }
}

/// Appends the hyphenated form of the uuid to `s`.
pub fn push_hyphenated(s: &mut String, u: u128)
    ensures
        final(s)@ == old(s)@ + hyphenated(u),
{
    let mut d = String::new();
    push_hex(&mut d, u, 32);
    proof {
        lemma_hex_digits_len(u as nat, 32);
        assert(d@ =~= simple(u));
    }
    let digits = d.as_str();
    proof {
        reveal_strlit("-");
    }
    s.append(digits.substring_char(0, 8));
    s.append("-");
    s.append(digits.substring_char(8, 12));
    s.append("-");
    s.append(digits.substring_char(12, 16));
    s.append("-");
    s.append(digits.substring_char(16, 20));
    s.append("-");
    s.append(digits.substring_char(20, 32));
    proof {
        assert(s@ =~= old(s)@ + hyphenated(u));
    }
}

/// Appends the simple form of the uuid to `s`.
pub fn push_simple(s: &mut String, u: u128)
    ensures
        final(s)@ == old(s)@ + simple(u),
{
    push_hex(s, u, 32);
}

} // verus!
