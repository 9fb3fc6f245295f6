//! The portal API layer's decision logic: the authentication flow's URLs,
//! forms and redirect checks, the retrying HTTP send, and the single-sign-on
//! relay for the conferencing service.

use vstd::prelude::*;

use crate::util::{find_char, find_char_exec};

verus! {

broadcast use vstd::utf8::char_is_scalar, vstd::utf8::char_u32_cast;

/// A session with the portal: the bearer token of the API, and the path of
/// the stream muxer executable used for multimedia downloads.
#[derive(Clone, Debug)]
pub struct Api {
    pub jwt: String,
    pub ffmpeg_path: String,
}

impl Api {
    /// A session around a bearer token, not yet set up for multimedia.
    pub fn new(jwt: String) -> (r: Api)
        ensures
            r.jwt@ == jwt@,
            r.ffmpeg_path@ == Seq::<char>::empty(),
    {
        Api { jwt, ffmpeg_path: String::new() }
    }

    /// The same session with the stream muxer's path set.
    pub fn with_ffmpeg(self, ffmpeg_path: String) -> (r: Api)
        ensures
            r.jwt@ == self.jwt@,
            r.ffmpeg_path@ == ffmpeg_path@,
    {
        Api { jwt: self.jwt, ffmpeg_path }
    }
}

/// `s` begins with `prefix`.
pub open spec fn starts_with(s: Seq<char>, prefix: Seq<char>) -> bool {
    s.len() >= prefix.len() && s.subrange(0, prefix.len() as int) == prefix
}

/// Whether the string begins with the given prefix.
pub fn str_starts_with(s: &str, prefix: &str) -> (r: bool)
    ensures
        r == starts_with(s@, prefix@),
{
    let slen = s.unicode_len();
    let plen = prefix.unicode_len();
    if slen < plen {
        return false;
    }
    let mut i: usize = 0;
    while i < plen
        invariant
            slen == s@.len(),
            plen == prefix@.len(),
            plen <= slen,
            0 <= i <= plen,
            forall|j: int| 0 <= j < i ==> s@[j] == prefix@[j],
        decreases plen - i,
    {
        if s.get_char(i) != prefix.get_char(i) {
            return false;
        }
        i = i + 1;
    }
    proof {
        assert(s@.subrange(0, plen as int) =~= prefix@);
    }
    true
}

/// A lower-case hexadecimal digit.
pub open spec fn is_hex_char(c: char) -> bool {
    c == '0' || c == '1' || c == '2' || c == '3' || c == '4' || c == '5' || c == '6' || c == '7'
        || c == '8' || c == '9' || c == 'a' || c == 'b' || c == 'c' || c == 'd' || c == 'e' || c
        == 'f'
}

/// The lower-case hexadecimal digit of a value below sixteen.
pub open spec fn hex_digit(d: int) -> char {
    if d == 0 {
        '0'
    } else if d == 1 {
        '1'
    } else if d == 2 {
        '2'
    } else if d == 3 {
        '3'
    } else if d == 4 {
        '4'
    } else if d == 5 {
        '5'
    } else if d == 6 {
        '6'
    } else if d == 7 {
        '7'
    } else if d == 8 {
        '8'
    } else if d == 9 {
        '9'
    } else if d == 10 {
        'a'
    } else if d == 11 {
        'b'
    } else if d == 12 {
        'c'
    } else if d == 13 {
        'd'
    } else if d == 14 {
        'e'
    } else {
        'f'
    }
}

fn hex_digit_exec(d: u8) -> (r: char)
    requires
        d < 16,
    ensures
        r == hex_digit(d as int),
        is_hex_char(r),
{
    if d == 0 {
        '0'
    } else if d == 1 {
        '1'
    } else if d == 2 {
        '2'
    } else if d == 3 {
        '3'
    } else if d == 4 {
        '4'
    } else if d == 5 {
        '5'
    } else if d == 6 {
        '6'
    } else if d == 7 {
        '7'
    } else if d == 8 {
        '8'
    } else if d == 9 {
        '9'
    } else if d == 10 {
        'a'
    } else if d == 11 {
        'b'
    } else if d == 12 {
        'c'
    } else if d == 13 {
        'd'
    } else if d == 14 {
        'e'
    } else {
        'f'
    }
}

/// Relies on `rand::random::<u8>`: one random byte; nothing is promised of
/// its value.
#[verifier::external_body]
fn random_byte() -> u8 {
    rand::random::<u8>()
}

/// A string of hexadecimal digits only.
pub open spec fn is_hex_seq(s: Seq<char>) -> bool {
    forall|i: int| 0 <= i < s.len() ==> is_hex_char(s[i])
}

/// A fresh random nonce: `size` random bytes, written as `2 * size`
/// lower-case hexadecimal digits.
pub fn generate_random_bytes(size: usize) -> (r: String)
    requires
        size < 0x1000_0000,
    ensures
        r@.len() == 2 * size,
        is_hex_seq(r@),
{
    let mut r = String::new();
    let mut i: usize = 0;
    while i < size
        invariant
            0 <= i <= size,
            size < 0x1000_0000,
            r@.len() == 2 * i,
            is_hex_seq(r@),
        decreases size - i,
    {
        let b = random_byte();
        r.push(hex_digit_exec(b / 16));
        r.push(hex_digit_exec(b % 16));
        i = i + 1;
    }
    r
}

/// The authorization URL of the identity provider, carrying the fixed
/// client id, resource and callback, with the nonce as both `state` and
/// `nonce`.
pub open spec fn spec_auth_url(nonce: Seq<char>) -> Seq<char> {
    "https://vafs.nus.edu.sg/adfs/oauth2/authorize?response_type=code&client_id=E10493A3B1024F14BDC7D0D8B9F649E9-234390&state="@
        + nonce
        + "&redirect_uri=https%3A%2F%2Fluminus.nus.edu.sg%2Fauth%2Fcallback&scope=&resource=sg_edu_nus_oauth&nonce="@
        + nonce
}

/// Build the identity provider's authorization URL around a hexadecimal
/// nonce.  The fixed parts carry their own percent-encoding, and a
/// hexadecimal nonce needs none.
pub fn build_auth_url(nonce: &str) -> (r: String)
    requires
        is_hex_seq(nonce@),
    ensures
        r@ == spec_auth_url(nonce@),
{
    let mut r = String::new();
    r.append(
        "https://vafs.nus.edu.sg/adfs/oauth2/authorize?response_type=code&client_id=E10493A3B1024F14BDC7D0D8B9F649E9-234390&state=",
    );
    r.append(nonce);
    r.append(
        "&redirect_uri=https%3A%2F%2Fluminus.nus.edu.sg%2Fauth%2Fcallback&scope=&resource=sg_edu_nus_oauth&nonce=",
    );
    r.append(nonce);
    r
}

/// The form fields of the credential POST.
pub fn build_auth_form(username: &str, password: &str) -> (r: Vec<(String, String)>)
    ensures
        r@.len() == 3,
        r@[0].0@ == "UserName"@ && r@[0].1@ == username@,
        r@[1].0@ == "Password"@ && r@[1].1@ == password@,
        r@[2].0@ == "AuthMethod"@ && r@[2].1@ == "FormsAuthentication"@,
{
    let mut r: Vec<(String, String)> = Vec::new();
    r.push((String::from_str("UserName"), String::from_str(username)));
    r.push((String::from_str("Password"), String::from_str(password)));
    r.push((String::from_str("AuthMethod"), String::from_str("FormsAuthentication")));
    r
}

/// The form fields of the token exchange POST.
pub fn build_token_form(code: &str) -> (r: Vec<(String, String)>)
    ensures
        r@.len() == 5,
        r@[0].0@ == "grant_type"@ && r@[0].1@ == "authorization_code"@,
        r@[1].0@ == "client_id"@ && r@[1].1@ == "E10493A3B1024F14BDC7D0D8B9F649E9-234390"@,
        r@[2].0@ == "resource"@ && r@[2].1@ == "sg_edu_nus_oauth"@,
        r@[3].0@ == "code"@ && r@[3].1@ == code@,
        r@[4].0@ == "redirect_uri"@ && r@[4].1@ == "https://luminus.nus.edu.sg/auth/callback"@,
{
    let mut r: Vec<(String, String)> = Vec::new();
    r.push((String::from_str("grant_type"), String::from_str("authorization_code")));
    r.push((
        String::from_str("client_id"),
        String::from_str("E10493A3B1024F14BDC7D0D8B9F649E9-234390"),
    ));
    r.push((String::from_str("resource"), String::from_str("sg_edu_nus_oauth")));
    r.push((String::from_str("code"), String::from_str(code)));
    r.push((
        String::from_str("redirect_uri"),
        String::from_str("https://luminus.nus.edu.sg/auth/callback"),
    ));
    r
}

/// The value of a hexadecimal digit, upper or lower case.
pub open spec fn hex_value(c: char) -> int {
    if c == '0' { 0 } else if c == '1' { 1 } else if c == '2' { 2 } else if c == '3' { 3 }
    else if c == '4' { 4 } else if c == '5' { 5 } else if c == '6' { 6 } else if c == '7' { 7 }
    else if c == '8' { 8 } else if c == '9' { 9 }
    else if c == 'a' || c == 'A' { 10 } else if c == 'b' || c == 'B' { 11 }
    else if c == 'c' || c == 'C' { 12 } else if c == 'd' || c == 'D' { 13 }
    else if c == 'e' || c == 'E' { 14 } else { 15 }
}

/// A hexadecimal digit of either case.
pub open spec fn is_hex_any(c: char) -> bool {
    is_hex_char(c) || c == 'A' || c == 'B' || c == 'C' || c == 'D' || c == 'E' || c == 'F'
}

fn is_hex_any_exec(c: char) -> (r: bool)
    ensures
        r == is_hex_any(c),
{
    match c {
        '0' | '1' | '2' | '3' | '4' | '5' | '6' | '7' | '8' | '9' => true,
        'a' | 'b' | 'c' | 'd' | 'e' | 'f' => true,
        'A' | 'B' | 'C' | 'D' | 'E' | 'F' => true,
        _ => false,
    }
}

fn hex_value_exec(c: char) -> (r: u8)
    requires
        is_hex_any(c),
    ensures
        r == hex_value(c),
        r < 16,
{
    match c {
        '0' => 0, '1' => 1, '2' => 2, '3' => 3, '4' => 4,
        '5' => 5, '6' => 6, '7' => 7, '8' => 8, '9' => 9,
        'a' | 'A' => 10, 'b' | 'B' => 11, 'c' | 'C' => 12,
        'd' | 'D' => 13, 'e' | 'E' => 14, _ => 15,
    }
}

/// Whether an ASCII percent escape stands at the front of `s`.
pub open spec fn has_ascii_escape(s: Seq<char>) -> bool {
    s.len() >= 3 && s[0] == '%' && is_hex_any(s[1]) && is_hex_any(s[2]) && hex_value(s[1]) * 16
        + hex_value(s[2]) < 128
}

/// Decode a form-urlencoded text: `+` is a space, and an ASCII percent
/// escape is its character.  Other characters, and escapes of non-ASCII
/// bytes, stand for themselves.
pub open spec fn spec_form_decode(s: Seq<char>) -> Seq<char>
    decreases s.len(),
{
    if s.len() == 0 {
        Seq::<char>::empty()
    } else if s[0] == '+' {
        seq![' '] + spec_form_decode(s.subrange(1, s.len() as int))
    } else if has_ascii_escape(s) {
        seq![(((hex_value(s[1]) * 16 + hex_value(s[2])) as u32) as char)] + spec_form_decode(
            s.subrange(3, s.len() as int),
        )
    } else {
        seq![s[0]] + spec_form_decode(s.subrange(1, s.len() as int))
    }
}

/// Decode a form-urlencoded string.
pub fn form_decode(s: &str) -> (r: String)
    ensures
        r@ == spec_form_decode(s@),
{
    let len = s.unicode_len();
    let mut r = String::new();
    let mut i: usize = 0;
    proof {
        assert(s@.subrange(0, len as int) =~= s@);
    }
    while i < len
        invariant
            len == s@.len(),
            0 <= i <= len,
            spec_form_decode(s@) =~= r@ + spec_form_decode(s@.subrange(i as int, len as int)),
        decreases len - i,
    {
        let ghost rest = s@.subrange(i as int, len as int);
        proof {
            assert(rest[0] == s@[i as int]);
            if rest.len() >= 3 {
                assert(rest[1] == s@[i + 1] && rest[2] == s@[i + 2]);
            }
            assert(rest.subrange(1, rest.len() as int) =~= s@.subrange(i + 1, len as int));
            if rest.len() >= 3 {
                assert(rest.subrange(3, rest.len() as int) =~= s@.subrange(i + 3, len as int));
            }
        }
        let c = s.get_char(i);
        if c == '+' {
            r.push(' ');
            i = i + 1;
        } else if c == '%' && len - i > 2 && is_hex_any_exec(s.get_char(i + 1)) && is_hex_any_exec(
            s.get_char(i + 2),
        ) && hex_value_exec(s.get_char(i + 1)) * 16 + hex_value_exec(s.get_char(i + 2)) < 128 {
            let v: u8 = hex_value_exec(s.get_char(i + 1)) * 16 + hex_value_exec(s.get_char(i + 2));
            r.push(v as char);
            i = i + 3;
        } else {
            r.push(c);
            i = i + 1;
        }
    }
    proof {
        assert(s@.subrange(len as int, len as int) =~= Seq::<char>::empty());
        assert(r@ =~= spec_form_decode(s@));
    }
    r
}

/// The decoded key-value pairs of a query string: segments between `&`,
/// each split at its first `=`; empty segments yield no pair.
pub open spec fn spec_query_pairs(q: Seq<char>) -> Seq<(Seq<char>, Seq<char>)>
    decreases q.len(),
    via spec_query_pairs_decreases
{
    match find_char(q, '&') {
        Some(i) => spec_segment_pair(q.subrange(0, i)) + spec_query_pairs(
            q.subrange(i + 1, q.len() as int),
        ),
        None => spec_segment_pair(q),
    }
}

#[via_fn]
proof fn spec_query_pairs_decreases(q: Seq<char>) {
    crate::util::lemma_find_char_bounds(q, '&');
}

/// The pair of one `&`-free query segment, or nothing for an empty one.
pub open spec fn spec_segment_pair(seg: Seq<char>) -> Seq<(Seq<char>, Seq<char>)> {
    if seg.len() == 0 {
        Seq::<(Seq<char>, Seq<char>)>::empty()
    } else {
        match find_char(seg, '=') {
            Some(i) => seq![
                (
                    spec_form_decode(seg.subrange(0, i)),
                    spec_form_decode(seg.subrange(i + 1, seg.len() as int)),
                ),
            ],
            None => seq![(spec_form_decode(seg), Seq::<char>::empty())],
        }
    }
}

fn segment_pair(seg: &str, out: &mut Vec<(String, String)>)
    ensures
        final(out)@.len() == old(out)@.len() + spec_segment_pair(seg@).len(),
        forall|k: int| 0 <= k < old(out)@.len() ==> final(out)@[k] == old(out)@[k],
        forall|k: int|
            0 <= k < spec_segment_pair(seg@).len() ==> (
            final(out)@[old(out)@.len() + k].0@,
            final(out)@[old(out)@.len() + k].1@,
            ) == spec_segment_pair(seg@)[k],
{
    let len = seg.unicode_len();
    if len == 0 {
        return ;
    }
    match find_char_exec(seg, '=') {
        Some(i) => {
            let key = form_decode(seg.substring_char(0, i));
            let value = form_decode(seg.substring_char(i + 1, len));
            out.push((key, value));
        },
        None => {
            let key = form_decode(seg);
            out.push((key, String::new()));
        },
    }
}

/// The decoded key-value pairs of a query string.
pub fn query_pairs(q: &str) -> (r: Vec<(String, String)>)
    ensures
        r@.len() == spec_query_pairs(q@).len(),
        forall|k: int|
            0 <= k < r@.len() ==> (r@[k].0@, r@[k].1@) == spec_query_pairs(q@)[k],
{
    let mut out: Vec<(String, String)> = Vec::new();
    let mut rest: &str = q;
    loop
        invariant
            spec_query_pairs(q@).len() == out@.len() + spec_query_pairs(rest@).len(),
            forall|k: int|
                0 <= k < out@.len() ==> (out@[k].0@, out@[k].1@) == spec_query_pairs(q@)[k],
            forall|k: int|
                0 <= k < spec_query_pairs(rest@).len() ==> spec_query_pairs(q@)[out@.len() + k]
                    == spec_query_pairs(rest@)[k],
        decreases rest@.len(),
    {
        let ghost restv = rest@;
        let ghost out_pre = out@;
        match find_char_exec(rest, '&') {
            Some(i) => {
                let len = rest.unicode_len();
                let seg = rest.substring_char(0, i);
                segment_pair(seg, &mut out);
                rest = rest.substring_char(i + 1, len);
                proof {
                    let segp = spec_segment_pair(seg@);
                    let qp = spec_query_pairs(q@);
                    assert(spec_query_pairs(restv) =~= segp + spec_query_pairs(rest@));
                    assert forall|k: int|
                        0 <= k < out@.len() implies (out@[k].0@, out@[k].1@) == qp[k] by {
                        if k >= out_pre.len() {
                            assert((out@[k].0@, out@[k].1@) == segp[k - out_pre.len()]);
                            assert(segp[k - out_pre.len()] == spec_query_pairs(restv)[k
                                - out_pre.len()]);
                            assert(qp[k] == spec_query_pairs(restv)[k - out_pre.len()]);
                        }
                    }
                    assert forall|k: int|
                        0 <= k < spec_query_pairs(rest@).len() implies qp[out@.len() + k]
                        == spec_query_pairs(rest@)[k] by {
                        assert(qp[out_pre.len() + (segp.len() + k)] == spec_query_pairs(restv)[
                            segp.len() + k
                        ]);
                        assert(spec_query_pairs(restv)[segp.len() + k] == spec_query_pairs(
                            rest@,
                        )[k]);
                    }
                }
            },
            None => {
                segment_pair(rest, &mut out);
                proof {
                    let segp = spec_segment_pair(restv);
                    let qp = spec_query_pairs(q@);
                    assert(spec_query_pairs(restv) =~= segp);
                    assert forall|k: int|
                        0 <= k < out@.len() implies (out@[k].0@, out@[k].1@) == qp[k] by {
                        if k >= out_pre.len() {
                            assert((out@[k].0@, out@[k].1@) == segp[k - out_pre.len()]);
                            assert(qp[k] == spec_query_pairs(restv)[k - out_pre.len()]);
                        }
                    }
                }
                return out;
            },
        }
    }
}

/// The value of the first pair whose key is `key`, if any.
pub open spec fn spec_lookup(pairs: Seq<(Seq<char>, Seq<char>)>, key: Seq<char>) -> Option<
    Seq<char>,
>
    decreases pairs.len(),
{
    if pairs.len() == 0 {
        None
    } else if pairs[0].0 == key {
        Some(pairs[0].1)
    } else {
        spec_lookup(pairs.subrange(1, pairs.len() as int), key)
    }
}

/// The decoded value of the first query parameter named `key`, if any.
pub open spec fn spec_query_param(q: Seq<char>, key: Seq<char>) -> Option<Seq<char>> {
    spec_lookup(spec_query_pairs(q), key)
}

/// Look up the first query parameter named `key`.
pub fn query_param(q: &str, key: &str) -> (r: Option<String>)
    ensures
        match r {
            Some(v) => spec_query_param(q@, key@) == Some(v@),
            None => spec_query_param(q@, key@) is None,
        },
{
    let pairs = query_pairs(q);
    let ghost spairs = spec_query_pairs(q@);
    let mut k: usize = 0;
    proof {
        assert(spairs.subrange(0, spairs.len() as int) =~= spairs);
    }
    while k < pairs.len()
        invariant
            spairs == spec_query_pairs(q@),
            pairs@.len() == spairs.len(),
            forall|j: int| 0 <= j < pairs@.len() ==> (pairs@[j].0@, pairs@[j].1@) == spairs[j],
            0 <= k <= pairs@.len(),
            spec_lookup(spairs, key@) == spec_lookup(
                spairs.subrange(k as int, spairs.len() as int),
                key@,
            ),
        decreases pairs@.len() - k,
    {
        let ghost rest = spairs.subrange(k as int, spairs.len() as int);
        proof {
            assert(rest[0] == spairs[k as int]);
            assert(rest.subrange(1, rest.len() as int) =~= spairs.subrange(
                k + 1,
                spairs.len() as int,
            ));
        }
        if crate::resource::str_eq(pairs[k].0.as_str(), key) {
            proof {
                assert(spairs[k as int].0 == key@);
                assert(rest[0].0 == key@);
                assert(spec_lookup(rest, key@) == Some(rest[0].1));
                assert(spec_lookup(spairs, key@) == Some(spairs[k as int].1));
            }
            let v = pairs[k].1.clone();
            proof {
                assert((pairs@[k as int].0@, pairs@[k as int].1@) == spairs[k as int]);
                assert(pairs@[k as int].1@ == spairs[k as int].1);
                assert(v@ == spairs[k as int].1);
                assert(spec_query_param(q@, key@) == Some(v@));
            }
            return Some(v);
        }
        k = k + 1;
    }
    proof {
        assert(spairs.subrange(spairs.len() as int, spairs.len() as int) =~= Seq::<
            (Seq<char>, Seq<char>),
        >::empty());
    }
    None
}

/// The query part of a URL: between the first `?` and the fragment.
pub open spec fn spec_url_query(url: Seq<char>) -> Seq<char> {
    let after = match find_char(url, '?') {
        Some(i) => url.subrange(i + 1, url.len() as int),
        None => Seq::<char>::empty(),
    };
    match find_char(after, '#') {
        Some(j) => after.subrange(0, j),
        None => after,
    }
}

/// The query part of a URL, an empty string when there is none.
pub fn url_query(url: &str) -> (r: String)
    ensures
        r@ == spec_url_query(url@),
{
    let len = url.unicode_len();
    match find_char_exec(url, '?') {
        Some(i) => {
            let after = url.substring_char(i + 1, len);
            let alen = after.unicode_len();
            match find_char_exec(after, '#') {
                Some(j) => {
                    let mut r = String::new();
                    r.append(after.substring_char(0, j));
                    r
                },
                None => {
                    let mut r = String::new();
                    r.append(after);
                    r
                },
            }
        },
        None => {
            proof {
                assert(spec_url_query(url@) =~= Seq::<char>::empty());
                if find_char(Seq::<char>::empty(), '#') is Some {
                }
            }
            String::new()
        },
    }
}

/// The fragment of a URL: everything after the first `#`, if any.
pub open spec fn spec_url_fragment(url: Seq<char>) -> Option<Seq<char>> {
    match find_char(url, '#') {
        Some(i) => Some(url.subrange(i + 1, url.len() as int)),
        None => None,
    }
}

/// The fragment of a URL, if any.
pub fn url_fragment(url: &str) -> (r: Option<String>)
    ensures
        match r {
            Some(f) => spec_url_fragment(url@) == Some(f@),
            None => spec_url_fragment(url@) is None,
        },
{
    let len = url.unicode_len();
    match find_char_exec(url, '#') {
        Some(i) => {
            let mut r = String::new();
            r.append(url.substring_char(i + 1, len));
            Some(r)
        },
        None => None,
    }
}

/// The portal callback that a successful credential POST must land on.
pub open spec fn spec_redirect_uri() -> Seq<char> {
    "https://luminus.nus.edu.sg/auth/callback"@
}

/// Judge the credential POST by its final URL: landing anywhere but the
/// portal callback means the credentials were rejected; landing there
/// without a `code` parameter is a failure of the provider; otherwise the
/// authorization code is returned.
pub fn auth_redirect_code(final_url: &str) -> (r: Result<String, crate::Error>)
    ensures
        !starts_with(final_url@, spec_redirect_uri()) ==> r == Result::<
            String,
            crate::Error,
        >::Err("Invalid credentials"),
        starts_with(final_url@, spec_redirect_uri()) ==> match spec_query_param(
            spec_url_query(final_url@),
            "code"@,
        ) {
            Some(c) => r is Ok && r->Ok_0@ == c,
            None => r == Result::<String, crate::Error>::Err(
                "Unknown authentication failure (no code returned)",
            ),
        },
{
    if !str_starts_with(final_url, "https://luminus.nus.edu.sg/auth/callback") {
        proof {
            reveal_strlit("https://luminus.nus.edu.sg/auth/callback");
        }
        return Err("Invalid credentials");
    }
    let query = url_query(final_url);
    match query_param(query.as_str(), "code") {
        Some(c) => Ok(c),
        None => Err("Unknown authentication failure (no code returned)"),
    }
}

/// What a JSON object's string field holds.  Relies on
/// `serde_json::from_str` and `Value::get`/`as_str`: the lookup is a pure
/// function of the text.
pub uninterp spec fn json_str_field(body: Seq<char>, key: Seq<char>) -> Option<Seq<char>>;

/// Relies on `serde_json::from_str` and `Value::get`/`as_str`: the string
/// field `key` of the JSON object in `body`, if the body parses and holds
/// one.
#[verifier::external_body]
pub fn json_string_field(body: &str, key: &str) -> (r: Option<String>)
    ensures
        match r {
            Some(v) => json_str_field(body@, key@) == Some(v@),
            None => json_str_field(body@, key@) is None,
        },
{
    serde_json::from_str::<serde_json::Value>(body).ok().and_then(
        |v| v.get(key).and_then(|x| x.as_str()).map(|s| s.to_owned()),
    )
}

/// What a JSON object's boolean field holds.  Relies on
/// `serde_json::from_str` and `Value::get`/`as_bool`: the lookup is a pure
/// function of the text.
pub uninterp spec fn json_boolean_field(body: Seq<char>, key: Seq<char>) -> Option<bool>;

/// Relies on `serde_json::from_str` and `Value::get`/`as_bool`: the boolean
/// field `key` of the JSON object in `body`, if the body parses and holds
/// one.
#[verifier::external_body]
pub fn json_bool_field(body: &str, key: &str) -> (r: Option<bool>)
    ensures
        match r {
            Some(v) => json_boolean_field(body@, key@) == Some(v),
            None => json_boolean_field(body@, key@) is None,
        },
{
    serde_json::from_str::<serde_json::Value>(body).ok().and_then(
        |v| v.get(key).and_then(|x| x.as_bool()),
    )
}

/// Judge the token exchange by its HTTP status and body: a failing status
/// is a failure of the provider, a body without an `access_token` string is
/// malformed, and otherwise the bearer token is returned.
pub fn extract_access_token(status_success: bool, body: &str) -> (r: Result<String, crate::Error>)
    ensures
        !status_success ==> r == Result::<String, crate::Error>::Err(
            "Unknown authentication failure (no token returned)",
        ),
        status_success ==> match json_str_field(body@, "access_token"@) {
            Some(t) => r is Ok && r->Ok_0@ == t,
            None => r == Result::<String, crate::Error>::Err(
                "Failed to deserialise token exchange response",
            ),
        },
{
    if !status_success {
        return Err("Unknown authentication failure (no token returned)");
    }
    match json_string_field(body, "access_token") {
        Some(t) => Ok(t),
        None => Err("Failed to deserialise token exchange response"),
    }
}

/// What one iteration of the retrying send saw.
#[derive(Copy, Clone, PartialEq, Eq, Structural, Debug)]
pub enum HttpAttempt {
    /// The request could not be built; a permanent failure.
    BuildFailed,
    /// The transport failed; the send is repeated.
    SendFailed,
    /// A response arrived, whatever its HTTP status.
    SendOk,
}

/// How the retrying send ends on a transcript of attempts.
#[derive(Copy, Clone, PartialEq, Eq, Structural, Debug)]
pub enum HttpRetryOutcome {
    /// The form could not be serialized; nothing was sent.
    SerializationError,
    /// A request could not be built.
    BuildError,
    /// The response of attempt `attempts` (counting from one) is returned.
    Success { attempts: usize },
    /// Every attempt in the transcript failed in transport.
    Pending,
}

/// How the retrying send ends: the form is serialized once, and then every
/// transport failure is retried until a response arrives or a request
/// cannot be built.
pub open spec fn spec_http_retry(form_serializable: bool, steps: Seq<HttpAttempt>) -> HttpRetryOutcome
    decreases steps.len(),
{
    if !form_serializable {
        HttpRetryOutcome::SerializationError
    } else if steps.len() == 0 {
        HttpRetryOutcome::Pending
    } else {
        match steps[0] {
            HttpAttempt::BuildFailed => HttpRetryOutcome::BuildError,
            HttpAttempt::SendOk => HttpRetryOutcome::Success { attempts: 1 },
            HttpAttempt::SendFailed => {
                match spec_http_retry(true, steps.subrange(1, steps.len() as int)) {
                    HttpRetryOutcome::Success { attempts } => HttpRetryOutcome::Success {
                        attempts: (attempts + 1) as usize,
                    },
                    other => other,
                }
            },
        }
    }
}

/// A successful retrying send used at least one and at most all attempts.
pub proof fn lemma_http_retry_attempts_bound(steps: Seq<HttpAttempt>)
    requires
        steps.len() < 0x1000_0000,
    ensures
        match spec_http_retry(true, steps) {
            HttpRetryOutcome::Success { attempts } => 1 <= attempts <= steps.len(),
            _ => true,
        },
    decreases steps.len(),
{
    if steps.len() > 0 && steps[0] == HttpAttempt::SendFailed {
        lemma_http_retry_attempts_bound(steps.subrange(1, steps.len() as int));
    }
}

/// Run the retrying send over a finite transcript of attempts.
pub fn drive_http_retry(form_serializable: bool, steps: &Vec<HttpAttempt>) -> (r: HttpRetryOutcome)
    requires
        steps@.len() < 0x1000_0000,
    ensures
        r == spec_http_retry(form_serializable, steps@),
{
    if !form_serializable {
        return HttpRetryOutcome::SerializationError;
    }
    let mut i: usize = 0;
    proof {
        assert(steps@.subrange(0, steps@.len() as int) =~= steps@);
    }
    while i < steps.len()
        invariant
            form_serializable == true,
            steps@.len() < 0x1000_0000,
            0 <= i <= steps@.len(),
            forall|j: int| 0 <= j < i ==> steps@[j] == HttpAttempt::SendFailed,
            spec_http_retry(true, steps@) == (match spec_http_retry(
                true,
                steps@.subrange(i as int, steps@.len() as int),
            ) {
                HttpRetryOutcome::Success { attempts } => HttpRetryOutcome::Success {
                    attempts: (attempts + i) as usize,
                },
                other => other,
            }),
        decreases steps@.len() - i,
    {
        let ghost rest = steps@.subrange(i as int, steps@.len() as int);
        proof {
            assert(rest[0] == steps@[i as int]);
            assert(rest.subrange(1, rest.len() as int) =~= steps@.subrange(
                i + 1,
                steps@.len() as int,
            ));
        }
        match steps[i] {
            HttpAttempt::BuildFailed => {
                proof {
                    assert(spec_http_retry(true, rest) == HttpRetryOutcome::BuildError);
                    assert(spec_http_retry(true, steps@) == HttpRetryOutcome::BuildError);
                }
                return HttpRetryOutcome::BuildError;
            },
            HttpAttempt::SendOk => {
                proof {
                    assert(spec_http_retry(true, rest) == (HttpRetryOutcome::Success {
                        attempts: 1usize,
                    }));
                    assert(spec_http_retry(true, steps@) == (HttpRetryOutcome::Success {
                        attempts: (1 + i as int) as usize,
                    }));
                    assert((1 + i as int) as usize == i + 1);
                }
                return HttpRetryOutcome::Success { attempts: i + 1 };
            },
            HttpAttempt::SendFailed => {
                proof {
                    let rest2 = steps@.subrange(i + 1, steps@.len() as int);
                    lemma_http_retry_attempts_bound(rest2);
                    assert(spec_http_retry(true, rest) == (match spec_http_retry(true, rest2) {
                        HttpRetryOutcome::Success { attempts } => HttpRetryOutcome::Success {
                            attempts: (attempts + 1) as usize,
                        },
                        other => other,
                    }));
                }
                i = i + 1;
            },
        }
    }
    proof {
        assert(steps@.subrange(steps@.len() as int, steps@.len() as int) =~= Seq::<
            HttpAttempt,
        >::empty());
    }
    HttpRetryOutcome::Pending
}

/// A transcript of transport failures followed by one response gives back
/// exactly that response: the send is retried just until it succeeds.
pub proof fn lemma_http_retry_first_success(steps: Seq<HttpAttempt>, k: int)
    requires
        0 <= k < steps.len(),
        forall|j: int| 0 <= j < k ==> steps[j] == HttpAttempt::SendFailed,
        steps[k] == HttpAttempt::SendOk,
        steps.len() < 0x1000_0000,
    ensures
        spec_http_retry(true, steps) == (HttpRetryOutcome::Success { attempts: (k + 1) as usize }),
    decreases k,
{
    if k == 0 {
    } else {
        let t = steps.subrange(1, steps.len() as int);
        assert(forall|j: int| 0 <= j < k - 1 ==> t[j] == steps[j + 1]);
        assert(t[k - 1] == steps[k]);
        lemma_http_retry_first_success(t, k - 1);
    }
}

/// What the `action` attribute of a document's first `form[method="post"]`
/// holds.  Relies on scraper's HTML parsing: the value is a pure function
/// of the document text.
pub uninterp spec fn post_form_action(html: Seq<char>) -> Option<Seq<char>>;

/// Relies on scraper's `Html::parse_document`, `Selector::parse` and
/// element attribute lookup: the `action` attribute of the first
/// `form[method="post"]` of the document, if any.
#[verifier::external_body]
pub fn find_post_form_action(html: &str) -> (r: Option<String>)
    ensures
        match r {
            Some(v) => post_form_action(html@) == Some(v@),
            None => post_form_action(html@) is None,
        },
{
    let document = scraper::Html::parse_document(html);
    let selector = scraper::Selector::parse("form[method=\"post\"]").unwrap();
    document.select(&selector).next().and_then(|element| element.value().attr("action")).map(
        |s| s.to_owned(),
    )
}

/// What the `value` attribute of the document's first `input` with the
/// given `name` holds.  Relies on scraper's HTML parsing: the value is a
/// pure function of the document text and the name.
pub uninterp spec fn input_value(html: Seq<char>, name: Seq<char>) -> Option<Seq<char>>;

/// An ASCII letter or digit.
pub open spec fn is_alnum_char(c: char) -> bool {
    ('a' <= c && c <= 'z') || ('A' <= c && c <= 'Z') || ('0' <= c && c <= '9')
}

/// A nonempty string of ASCII letters and digits.
pub open spec fn is_alnum_seq(s: Seq<char>) -> bool {
    s.len() > 0 && forall|i: int| 0 <= i < s.len() ==> is_alnum_char(s[i])
}

/// Relies on scraper's `Html::parse_document`, `Selector::parse` and
/// element attribute lookup: the `value` attribute of the document's first
/// `input[name="<name>"]`, if any.  An alphanumeric name keeps the built
/// selector well-formed.
#[verifier::external_body]
pub fn find_input_value(html: &str, name: &str) -> (r: Option<String>)
    requires
        is_alnum_seq(name@),
    ensures
        match r {
            Some(v) => input_value(html@, name@) == Some(v@),
            None => input_value(html@, name@) is None,
        },
{
    let document = scraper::Html::parse_document(html);
    let selector = scraper::Selector::parse(&format!("input[name=\"{}\"]", name)).unwrap();
    document.select(&selector).next().and_then(|element| element.value().attr("value")).map(
        |s| s.to_owned(),
    )
}

/// What the `value` attribute of the document's element with the given id
/// holds.  Relies on scraper's HTML parsing: the value is a pure function
/// of the document text and the id.
pub uninterp spec fn element_value_by_id(html: Seq<char>, id: Seq<char>) -> Option<Seq<char>>;

/// Relies on scraper's `Html::parse_document`, `Selector::parse` and
/// element attribute lookup: the `value` attribute of the document's first
/// element whose `id` attribute equals `id`, if any.  The id is
/// interpolated into a quoted attribute selector, which is well-formed for
/// every alphanumeric id (an id selector would not be: one starting with a
/// digit does not tokenize as an identifier).
#[verifier::external_body]
pub fn find_element_value_by_id(html: &str, id: &str) -> (r: Option<String>)
    requires
        is_alnum_seq(id@),
    ensures
        match r {
            Some(v) => element_value_by_id(html@, id@) == Some(v@),
            None => element_value_by_id(html@, id@) is None,
        },
{
    let document = scraper::Html::parse_document(html);
    let selector = scraper::Selector::parse(&format!("[id=\"{}\"]", id)).unwrap();
    document.select(&selector).next().and_then(|element| element.value().attr("value")).map(
        |s| s.to_owned(),
    )
}

/// What HTML-entity decoding yields.  Relies on `htmlescape::decode_html`:
/// the decoding is a pure function of the text, and it fails only on
/// malformed entities.
pub uninterp spec fn html_unescaped(s: Seq<char>) -> Option<Seq<char>>;

/// Relies on `htmlescape::decode_html`: the text with its HTML entities
/// decoded, or nothing when an entity is malformed.
#[verifier::external_body]
pub fn html_decode(s: &str) -> (r: Option<String>)
    ensures
        match r {
            Some(v) => html_unescaped(s@) == Some(v@),
            None => html_unescaped(s@) is None,
        },
{
    htmlescape::decode_html(s).ok()
}

/// Read the conferencing sign-in page: the identity provider's URL is the
/// first POST form's action, HTML-decoded, and the SAML request is the
/// `SAMLRequest` input's value.
pub fn zoom_signin_parse(html: &str) -> (r: Result<(String, String), crate::Error>)
    ensures
        post_form_action(html@) is None ==> r == Result::<(String, String), crate::Error>::Err(
            "Unable to find form action URL",
        ),
        forall|u: Seq<char>|
            post_form_action(html@) == Some(u) ==> match input_value(html@, "SAMLRequest"@) {
                None => r == Result::<(String, String), crate::Error>::Err(
                    "Unable to find SAMLRequest value",
                ),
                Some(v) => match html_unescaped(u) {
                    None => r == Result::<(String, String), crate::Error>::Err(
                        "Unable to decode URL",
                    ),
                    Some(du) => r is Ok && r->Ok_0.0@ == du && r->Ok_0.1@ == v,
                },
            },
{
    proof {
        reveal_strlit("SAMLRequest");
    }
    let action = match find_post_form_action(html) {
        Some(a) => a,
        None => {
            return Err("Unable to find form action URL");
        },
    };
    let saml_request = match find_input_value(html, "SAMLRequest") {
        Some(v) => v,
        None => {
            return Err("Unable to find SAMLRequest value");
        },
    };
    match html_decode(action.as_str()) {
        Some(du) => Ok((du, saml_request)),
        None => Err("Unable to decode URL"),
    }
}

/// Read the identity provider's response page: the service provider's URL
/// is the first POST form's action, HTML-decoded, and the SAML response is
/// the `SAMLResponse` input's value.
pub fn idp_response_parse(html: &str) -> (r: Result<(String, String), crate::Error>)
    ensures
        post_form_action(html@) is None ==> r == Result::<(String, String), crate::Error>::Err(
            "Unable to find form action URL",
        ),
        forall|u: Seq<char>|
            post_form_action(html@) == Some(u) ==> match input_value(html@, "SAMLResponse"@) {
                None => r == Result::<(String, String), crate::Error>::Err(
                    "Unable to find SAMLResponse value",
                ),
                Some(v) => match html_unescaped(u) {
                    None => r == Result::<(String, String), crate::Error>::Err(
                        "Unable to decode URL",
                    ),
                    Some(du) => r is Ok && r->Ok_0.0@ == du && r->Ok_0.1@ == v,
                },
            },
{
    proof {
        reveal_strlit("SAMLResponse");
    }
    let action = match find_post_form_action(html) {
        Some(a) => a,
        None => {
            return Err("Unable to find form action URL");
        },
    };
    let saml_response = match find_input_value(html, "SAMLResponse") {
        Some(v) => v,
        None => {
            return Err("Unable to find SAMLResponse value");
        },
    };
    match html_decode(action.as_str()) {
        Some(du) => Ok((du, saml_response)),
        None => Err("Unable to decode URL"),
    }
}

/// The single-sign-on is complete only when the final POST lands on the
/// conferencing profile page.
pub fn zoom_sso_check(final_url: &str) -> (r: Result<(), crate::Error>)
    ensures
        starts_with(final_url@, "https://nus-sg.zoom.us/profile"@) <==> r is Ok,
        !starts_with(final_url@, "https://nus-sg.zoom.us/profile"@) ==> r == Result::<
            (),
            crate::Error,
        >::Err("Zoom SSO failed"),
{
    if str_starts_with(final_url, "https://nus-sg.zoom.us/profile") {
        Ok(())
    } else {
        Err("Zoom SSO failed")
    }
}

} // verus!
