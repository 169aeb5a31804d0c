//! Email autolink matching over raw bytes.
//!
//! The scan accepts `local@domain` where the local part is made of
//! alphanumerics and `.+-_`, and the domain is made of alphanumerics,
//! dots followed by an alphanumeric, and `-_`; at least one such dot must
//! occur and the last character must be a letter or a dot.  Under the
//! xmpp protocol a second `@` and a single `/` are also allowed in the
//! domain part.
use vstd::prelude::*;
use vstd::string::*;
use vstd::utf8::decode_utf8;
use vstd::utf8::is_continuation_byte;
use vstd::utf8::is_leading_byte_width_1;
use vstd::utf8::is_leading_byte_width_2;
use vstd::utf8::is_leading_byte_width_3;
use vstd::utf8::is_leading_byte_width_4;
use vstd::utf8::length_of_first_codepoint;
use vstd::utf8::pop_first_scalar;
use vstd::utf8::valid_first_scalar;
use vstd::utf8::valid_leading_and_continuation_bytes_first_codepoint;
use vstd::utf8::valid_utf8;

verus! {

/// The protocol an address is matched for.
pub enum Protocol {
    Mailto,
    Xmpp,
}

/// An ASCII letter or digit.
pub open spec fn is_alnum_byte(b: u8) -> bool {
    (48 <= b && b <= 57) || (65 <= b && b <= 90) || (97 <= b && b <= 122)
}

/// An ASCII letter.
pub open spec fn is_alpha_byte(b: u8) -> bool {
    (65 <= b && b <= 90) || (97 <= b && b <= 122)
}

fn alnum_byte(b: u8) -> (r: bool)
    ensures
        r == is_alnum_byte(b),
{
    (48 <= b && b <= 57) || (65 <= b && b <= 90) || (97 <= b && b <= 122)
}

fn alpha_byte(b: u8) -> (r: bool)
    ensures
        r == is_alpha_byte(b),
{
    (65 <= b && b <= 90) || (97 <= b && b <= 122)
}

/// A byte allowed in the local part besides alphanumerics.
pub open spec fn is_local_extra(b: u8) -> bool {
    b == 46 || b == 43 || b == 45 || b == 95
}

/// The end of the local part: the first position at or after `i` whose
/// byte is neither alphanumeric nor one of `.+-_`.
pub open spec fn spec_local_end(s: Seq<u8>, i: int) -> int
    decreases s.len() - i,
{
    if 0 <= i < s.len() && (is_alnum_byte(s[i]) || is_local_extra(s[i])) {
        spec_local_end(s, i + 1)
    } else {
        i
    }
}

proof fn lemma_local_end_bounds(s: Seq<u8>, i: int)
    requires
        0 <= i <= s.len(),
    ensures
        i <= spec_local_end(s, i) <= s.len(),
    decreases s.len() - i,
{
    if 0 <= i < s.len() && (is_alnum_byte(s[i]) || is_local_extra(s[i])) {
        lemma_local_end_bounds(s, i + 1);
    }
}

/// The domain scan from position `i` with `np` dots seen and `slash`
/// slashes used: yields the end position and the final dot count, or
/// nothing when a second `@` aborts a non-xmpp match.
pub open spec fn spec_domain_scan(s: Seq<u8>, i: int, xmpp: bool, np: int, slash: int) -> Option<
    (int, int),
>
    decreases s.len() - i,
{
    if !(0 <= i < s.len()) {
        Some((i, np))
    } else {
        let c = s[i];
        if is_alnum_byte(c) {
            spec_domain_scan(s, i + 1, xmpp, np, slash)
        } else if c == 64 {
            if xmpp {
                spec_domain_scan(s, i + 1, xmpp, np, slash)
            } else {
                None
            }
        } else if c == 46 && i < s.len() - 1 && is_alnum_byte(s[i + 1]) {
            spec_domain_scan(s, i + 1, xmpp, np + 1, slash)
        } else if c == 47 && xmpp && slash == 0 {
            spec_domain_scan(s, i + 1, xmpp, np, 1)
        } else if c != 45 && c != 95 {
            Some((i, np))
        } else {
            spec_domain_scan(s, i + 1, xmpp, np, slash)
        }
    }
}

/// Where a whole email match starting from `pos` ends, if the bytes from
/// `pos` form `local@domain` with at least one dot-before-alphanumeric in
/// the domain and a letter or dot at the end.
pub open spec fn spec_email_match(s: Seq<u8>, pos: int, xmpp: bool) -> Option<int> {
    let a = spec_local_end(s, pos);
    if a >= s.len() || s[a] != 64 || a == 0 {
        None
    } else {
        match spec_domain_scan(s, a + 1, xmpp, 0, 0) {
            None => None,
            Some((b, np)) => if b < 2 || np == 0 || (!is_alpha_byte(s[b - 1]) && s[b - 1]
                != 46) {
                None
            } else {
                Some(b)
            },
        }
    }
}

/// The characters of an ASCII byte sequence.
pub open spec fn spec_ascii_chars(bs: Seq<u8>) -> Seq<char> {
    bs.map_values(|b: u8| b as char)
}

/// A valid encoding extended by ASCII bytes stays valid, and decodes to
/// the original text followed by those bytes as characters.
pub proof fn lemma_utf8_ascii_extend(a: Seq<u8>, b: Seq<u8>)
    requires
        valid_utf8(a),
        forall|i: int| 0 <= i < b.len() ==> b[i] < 128,
    ensures
        valid_utf8(a + b),
        decode_utf8(a + b) == decode_utf8(a) + spec_ascii_chars(b),
    decreases a.len() + b.len(),
{
    let ab = a + b;
    if a.len() == 0 {
        assert(ab =~= b);
        if b.len() == 0 {
            assert(spec_ascii_chars(b) =~= Seq::<char>::empty());
            assert(decode_utf8(ab) =~= decode_utf8(a) + spec_ascii_chars(b));
        } else {
            assert(is_leading_byte_width_1(b[0]));
            assert(valid_leading_and_continuation_bytes_first_codepoint(b));
            assert(valid_first_scalar(b));
            assert(length_of_first_codepoint(b) == 1);
            assert(pop_first_scalar(b) =~= b.drop_first());
            lemma_utf8_ascii_extend(a, b.drop_first());
            assert(a + b.drop_first() =~= b.drop_first());
            assert(valid_utf8(b));
            assert(decode_utf8(b.drop_first()) == spec_ascii_chars(b.drop_first()));
            let b0 = b[0];
            assert(b0 & 0x7F == b0) by (bit_vector)
                requires
                    b0 < 128,
            ;
            assert(vstd::utf8::decode_first_scalar(b) == b[0] as u32);
            assert((b[0] as u32) as char == b[0] as char);
            assert(spec_ascii_chars(b) =~= seq![b[0] as char] + spec_ascii_chars(
                b.drop_first(),
            ));
            assert(decode_utf8(ab) =~= decode_utf8(a) + spec_ascii_chars(b));
        }
    } else {
        let w = length_of_first_codepoint(a);
        assert(ab[0] == a[0]);
        assert(forall|i: int| 0 <= i < a.len() ==> ab[i] == a[i]);
        assert(valid_leading_and_continuation_bytes_first_codepoint(ab));
        assert(length_of_first_codepoint(ab) == w);
        assert(vstd::utf8::decode_first_codepoint(ab) == vstd::utf8::decode_first_codepoint(a));
        assert(valid_first_scalar(ab));
        assert(1 <= w <= a.len());
        assert(pop_first_scalar(ab) =~= pop_first_scalar(a) + b);
        assert(pop_first_scalar(a).len() == a.len() - w);
        lemma_utf8_ascii_extend(pop_first_scalar(a), b);
        assert(valid_utf8(ab));
        assert(decode_utf8(ab) =~= decode_utf8(a) + spec_ascii_chars(b));
    }
}

/// Relies on str::from_utf8 and str::to_string: decodes the first `b`
/// bytes, which the caller shows to be a valid encoding, into the text
/// they encode.
#[verifier::external_body]
fn utf8_prefix_to_string(v: &[u8], b: usize) -> (r: String)
    requires
        b <= v@.len(),
        valid_utf8(v@.take(b as int)),
    ensures
        r@ == decode_utf8(v@.take(b as int)),
{
    core::str::from_utf8(&v[..b]).unwrap().to_string()
}

/// Matches an email address in `contents` around an `@` expected at or
/// after `pos`; on success the returned text spans from the start of
/// `contents` to the end of the domain, with its character count.
pub fn match_any_email(contents: &[u8], pos: usize, protocol: Protocol) -> (r: Option<
    (String, usize),
>)
    requires
        valid_utf8(contents@.take(pos as int)),
    ensures
        match spec_email_match(contents@, pos as int, protocol is Xmpp) {
            Some(b) => r matches Some((url, cnt)) && url@ == decode_utf8(contents@.take(b))
                && cnt == decode_utf8(contents@.take(b)).len(),
            None => r is None,
        },
{
    let ghost s = contents@;
    let xmpp = match protocol {
        Protocol::Mailto => false,
        Protocol::Xmpp => true,
    };
    let size = contents.len();
    let mut p = pos;
    if p > size {
        proof {
            assert(spec_local_end(s, pos as int) == pos);
            assert(spec_email_match(s, pos as int, xmpp) is None);
        }
        return None;
    }
    while p < size && (alnum_byte(contents[p]) || contents[p] == 46 || contents[p] == 43
        || contents[p] == 45 || contents[p] == 95)
        invariant
            pos <= p <= size,
            size == s.len(),
            s == contents@,
            spec_local_end(s, pos as int) == spec_local_end(s, p as int),
        decreases size - p,
    {
        p = p + 1;
    }
    proof {
        assert(spec_local_end(s, p as int) == p);
    }
    if p >= size {
        return None;
    }
    if contents[p] != 64 {
        return None;
    }
    if p == 0 {
        return None;
    }
    let a = p;
    let mut link_end = a + 1;
    let mut np: usize = 0;
    let mut num_slash: usize = 0;
    let mut aborted = false;
    let mut ended = false;
    loop
        invariant_except_break
            a + 1 <= link_end <= size,
            size == s.len(),
            s == contents@,
            np <= link_end,
            !aborted && !ended,
            forall|j: int| a + 1 <= j < link_end ==> s[j] < 128,
            spec_domain_scan(s, a + 1, xmpp, 0, 0) == spec_domain_scan(
                s,
                link_end as int,
                xmpp,
                np as int,
                num_slash as int,
            ),
        ensures
            aborted || ended,
            a + 1 <= link_end <= size,
            np <= link_end,
            forall|j: int| a + 1 <= j < link_end ==> s[j] < 128,
            aborted ==> spec_domain_scan(s, a + 1, xmpp, 0, 0) is None,
            ended ==> spec_domain_scan(s, a + 1, xmpp, 0, 0) == Some(
                (link_end as int, np as int),
            ),
        decreases size - link_end,
    {
        if link_end >= size {
            proof {
                assert(spec_domain_scan(s, link_end as int, xmpp, np as int, num_slash as int)
                    == Some((link_end as int, np as int)));
            }
            ended = true;
            break ;
        }
        let c = contents[link_end];
        if alnum_byte(c) {
            link_end = link_end + 1;
        } else if c == 64 {
            if xmpp {
                link_end = link_end + 1;
            } else {
                aborted = true;
                break ;
            }
        } else if c == 46 && link_end < size - 1 && alnum_byte(contents[link_end + 1]) {
            np = np + 1;
            link_end = link_end + 1;
        } else if c == 47 && xmpp && num_slash == 0 {
            num_slash = 1;
            link_end = link_end + 1;
        } else if c != 45 && c != 95 {
            ended = true;
            break ;
        } else {
            link_end = link_end + 1;
        }
    }
    if aborted {
        return None;
    }
    proof {
        assert(spec_domain_scan(s, a + 1, xmpp, 0, 0) == Some((link_end as int, np as int)));
    }
    if link_end < 2 || np == 0 {
        return None;
    }
    let last = contents[link_end - 1];
    if !alpha_byte(last) && last != 46 {
        return None;
    }
    proof {
        assert(spec_email_match(s, pos as int, xmpp) == Some(link_end as int));
        assert(forall|i: int| pos <= i < a ==> is_alnum_byte(s[i]) || is_local_extra(s[i]))
            by {
            lemma_local_end_chars(s, pos as int, a as int);
        }
        assert(forall|j: int| pos <= j < link_end ==> s[j] < 128);
        assert(s.take(link_end as int) =~= s.take(pos as int) + s.subrange(
            pos as int,
            link_end as int,
        ));
        lemma_utf8_ascii_extend(s.take(pos as int), s.subrange(pos as int, link_end as int));
    }
    let url = utf8_prefix_to_string(contents, link_end);
    let cnt = url.as_str().unicode_len();
    Some((url, cnt))
}

proof fn lemma_local_end_chars(s: Seq<u8>, i: int, a: int)
    requires
        0 <= i <= s.len(),
        spec_local_end(s, i) == a,
    ensures
        forall|k: int| i <= k < a ==> is_alnum_byte(s[k]) || is_local_extra(s[k]),
    decreases s.len() - i,
{
    if 0 <= i < s.len() && (is_alnum_byte(s[i]) || is_local_extra(s[i])) {
        lemma_local_end_bounds(s, i + 1);
        lemma_local_end_chars(s, i + 1, a);
    }
}

} // verus!
