//! Filename utilities: sanitization, extension handling, and the numeric
//! string forms used when building resource paths.

use chrono::Datelike;
use vstd::prelude::*;

verus! {

/// `String::push` appends one character at the end.
pub assume_specification[ String::push ](s: &mut String, c: char)
    ensures
        final(s)@ == old(s)@.push(c),
;

/// The characters the sanitizer treats as trimmable whitespace: the
/// Unicode White_Space set, as `char::is_whitespace` reports it.
pub open spec fn is_space_char(c: char) -> bool {
    c == ' ' || c == '\t' || c == '\n' || c == '\r' || c == '\u{b}' || c == '\u{c}' || c
        == '\u{85}' || c == '\u{a0}' || c == '\u{1680}' || ('\u{2000}' <= c && c <= '\u{200a}')
        || c == '\u{2028}' || c == '\u{2029}' || c == '\u{202f}' || c == '\u{205f}' || c
        == '\u{3000}'
}

/// A path separator or NUL byte becomes `-`; every other character is kept.
pub open spec fn sanitize_char(c: char) -> char {
    if c == '/' || c == '\u{0}' {
        '-'
    } else {
        c
    }
}

/// The input with its leading whitespace removed.
pub open spec fn trim_start_rec(s: Seq<char>) -> Seq<char>
    decreases s.len(),
{
    if s.len() > 0 && is_space_char(s[0]) {
        trim_start_rec(s.subrange(1, s.len() as int))
    } else {
        s
    }
}

/// The input with its trailing whitespace removed.
pub open spec fn trim_end_rec(s: Seq<char>) -> Seq<char>
    decreases s.len(),
{
    if s.len() > 0 && is_space_char(s[s.len() - 1]) {
        trim_end_rec(s.subrange(0, s.len() - 1))
    } else {
        s
    }
}

/// The input with whitespace removed from both ends.
pub open spec fn spec_trim(s: Seq<char>) -> Seq<char> {
    trim_end_rec(trim_start_rec(s))
}

/// What filename sanitization produces: the trimmed input with `/` and NUL
/// replaced by `-`.
pub open spec fn spec_sanitise(s: Seq<char>) -> Seq<char> {
    spec_trim(s).map_values(|c: char| sanitize_char(c))
}

/// Whether the sanitizer treats this character as trimmable whitespace.
pub fn is_space_char_exec(c: char) -> (r: bool)
    ensures
        r == is_space_char(c),
{
    c == ' ' || c == '\t' || c == '\n' || c == '\r' || c == '\u{b}' || c == '\u{c}' || c
        == '\u{85}' || c == '\u{a0}' || c == '\u{1680}' || ('\u{2000}' <= c && c <= '\u{200a}')
        || c == '\u{2028}' || c == '\u{2029}' || c == '\u{202f}' || c == '\u{205f}' || c
        == '\u{3000}'
}

fn sanitize_char_exec(c: char) -> (r: char)
    ensures
        r == sanitize_char(c),
{
    if c == '/' || c == '\u{0}' {
        '-'
    } else {
        c
    }
}

/// When the first `k` characters are whitespace and the next is not, the
/// trimmed string is the tail from `k`.
pub proof fn lemma_trim_start_at(s: Seq<char>, k: int)
    requires
        0 <= k <= s.len(),
        forall|j: int| 0 <= j < k ==> is_space_char(s[j]),
        k == s.len() || !is_space_char(s[k]),
    ensures
        trim_start_rec(s) =~= s.subrange(k, s.len() as int),
    decreases k,
{
    if k == 0 {
        assert(s.subrange(0, s.len() as int) =~= s);
    } else {
        let t = s.subrange(1, s.len() as int);
        assert(forall|j: int| 0 <= j < k - 1 ==> is_space_char(t[j]));
        lemma_trim_start_at(t, k - 1);
        assert(t.subrange(k - 1, t.len() as int) =~= s.subrange(k, s.len() as int));
    }
}

proof fn lemma_trim_end_at(s: Seq<char>, k: int)
    requires
        0 <= k <= s.len(),
        forall|j: int| k <= j < s.len() ==> is_space_char(s[j]),
        k == 0 || !is_space_char(s[k - 1]),
    ensures
        trim_end_rec(s) =~= s.subrange(0, k),
    decreases s.len() - k,
{
    if k == s.len() {
        if s.len() == 0 {
            assert(trim_end_rec(s) =~= s.subrange(0, k));
        } else {
            assert(!is_space_char(s[s.len() - 1]));
            assert(s.subrange(0, s.len() as int) =~= s);
        }
    } else {
        let t = s.subrange(0, s.len() - 1);
        assert(is_space_char(s[s.len() - 1]));
        assert(forall|j: int| k <= j < t.len() ==> is_space_char(t[j]));
        lemma_trim_end_at(t, k);
        assert(t.subrange(0, k) =~= s.subrange(0, k));
    }
}

/// Sanitize one filename: trim surrounding whitespace, then replace each
/// `/` and NUL character with `-`, so that the result is safe as a single
/// relative path component.
pub fn sanitise_filename(name: &str) -> (r: String)
    ensures
        r@ == spec_sanitise(name@),
{
    let len = name.unicode_len();
    let mut start: usize = 0;
    while start < len && is_space_char_exec(name.get_char(start))
        invariant
            len == name@.len(),
            0 <= start <= len,
            forall|j: int| 0 <= j < start ==> is_space_char(name@[j]),
        decreases len - start,
    {
        start = start + 1;
    }
    let mut end: usize = len;
    while end > start && is_space_char_exec(name.get_char(end - 1))
        invariant
            len == name@.len(),
            0 <= start <= end <= len,
            forall|j: int| 0 <= j < start ==> is_space_char(name@[j]),
            start == len || !is_space_char(name@[start as int]),
            forall|j: int| end <= j < len ==> is_space_char(name@[j]),
        decreases end,
    {
        end = end - 1;
    }
    proof {
        lemma_trim_start_at(name@, start as int);
        let t = name@.subrange(start as int, len as int);
        if end > start {
            assert(!is_space_char(t[end - start - 1]));
        }
        assert(forall|j: int| end - start <= j < t.len() ==> is_space_char(t[j]));
        lemma_trim_end_at(t, end - start);
        assert(spec_trim(name@) =~= name@.subrange(start as int, end as int));
    }
    let mut r = String::new();
    let mut i = start;
    while i < end
        invariant
            len == name@.len(),
            0 <= start <= i <= end <= len,
            r@ =~= name@.subrange(start as int, i as int).map_values(
                |c: char| sanitize_char(c),
            ),
        decreases end - i,
    {
        r.push(sanitize_char_exec(name.get_char(i)));
        i = i + 1;
        proof {
            assert(name@.subrange(start as int, i as int) =~= name@.subrange(
                start as int,
                i - 1,
            ).push(name@[i - 1]));
        }
    }
    proof {
        assert(r@ =~= spec_sanitise(name@));
    }
    r
}

/// Sanitization is idempotent, and its result holds no `/` and no NUL:
/// running the sanitizer on an already sanitized name changes nothing.
pub proof fn lemma_sanitise_idempotent(s: Seq<char>)
    ensures
        spec_sanitise(spec_sanitise(s)) == spec_sanitise(s),
        forall|i: int|
            0 <= i < spec_sanitise(s).len() ==> spec_sanitise(s)[i] != '/' && spec_sanitise(
                s,
            )[i] != '\u{0}',
{
    let t = spec_sanitise(s);
    assert(forall|i: int| 0 <= i < t.len() ==> t[i] == sanitize_char(spec_trim(s)[i]));
    assert(forall|i: int| 0 <= i < t.len() ==> t[i] != '/' && t[i] != '\u{0}');
    if t.len() == 0 {
        assert(trim_start_rec(t) =~= t);
        assert(spec_sanitise(t) =~= t);
    } else {
        let u = spec_trim(s);
        assert(trim_end_rec(trim_start_rec(s)).len() > 0);
        lemma_trim_first_last_not_space(s);
        assert(!is_space_char(u[0]));
        assert(!is_space_char(u[u.len() - 1]));
        assert(!is_space_char(t[0]));
        assert(!is_space_char(t[t.len() - 1]));
        assert(trim_start_rec(t) == t);
        assert(trim_end_rec(t) == t);
        assert(spec_trim(t) == t);
        assert(spec_sanitise(t) =~= t);
    }
}

/// The least index at which `c` occurs in `s`, if any.
pub open spec fn find_char(s: Seq<char>, c: char) -> Option<int>
    decreases s.len(),
{
    if s.len() == 0 {
        None
    } else if s[0] == c {
        Some(0)
    } else {
        match find_char(s.subrange(1, s.len() as int), c) {
            Some(i) => Some(i + 1),
            None => None,
        }
    }
}

/// Where `find_char` points, the character stands, and none before it.
pub proof fn lemma_find_char_bounds(s: Seq<char>, c: char)
    ensures
        match find_char(s, c) {
            Some(i) => 0 <= i < s.len() && s[i] == c && forall|j: int| 0 <= j < i ==> s[j] != c,
            None => forall|j: int| 0 <= j < s.len() ==> s[j] != c,
        },
    decreases s.len(),
{
    if s.len() > 0 && s[0] != c {
        let t = s.subrange(1, s.len() as int);
        lemma_find_char_bounds(t, c);
        match find_char(t, c) {
            Some(i) => {
                assert(t[i] == s[i + 1]);
                assert forall|j: int| 0 <= j < i + 1 implies s[j] != c by {
                    if j > 0 {
                        assert(t[j - 1] == s[j]);
                    }
                }
            },
            None => {
                assert forall|j: int| 0 <= j < s.len() implies s[j] != c by {
                    if j > 0 {
                        assert(t[j - 1] == s[j]);
                    }
                }
            },
        }
    }
}

/// The greatest index at which `c` occurs in `s`, if any.
pub open spec fn rfind_char(s: Seq<char>, c: char) -> Option<int>
    decreases s.len(),
{
    if s.len() == 0 {
        None
    } else if s[s.len() - 1] == c {
        Some(s.len() - 1)
    } else {
        rfind_char(s.subrange(0, s.len() - 1), c)
    }
}

proof fn lemma_find_char_at(s: Seq<char>, c: char, k: int)
    requires
        0 <= k <= s.len(),
        forall|j: int| 0 <= j < k ==> s[j] != c,
        k == s.len() || s[k] == c,
    ensures
        k == s.len() ==> find_char(s, c) is None,
        k < s.len() ==> find_char(s, c) == Some(k),
    decreases k, s.len(),
{
    if k == 0 {
        if s.len() > 0 && s[0] != c {
            let t = s.subrange(1, s.len() as int);
            lemma_find_char_at(t, c, 0);
        }
    } else {
        let t = s.subrange(1, s.len() as int);
        lemma_find_char_at(t, c, k - 1);
    }
}

proof fn lemma_rfind_char_at(s: Seq<char>, c: char, k: int)
    requires
        -1 <= k < s.len(),
        forall|j: int| k < j < s.len() ==> s[j] != c,
        k == -1 || s[k] == c,
    ensures
        k == -1 ==> rfind_char(s, c) is None,
        k >= 0 ==> rfind_char(s, c) == Some(k),
    decreases s.len(),
{
    if s.len() > 0 && s[s.len() - 1] != c {
        let t = s.subrange(0, s.len() - 1);
        lemma_rfind_char_at(t, c, k);
    }
}

/// The least index at which `c` occurs in `name`, if any.
pub fn find_char_exec(name: &str, c: char) -> (r: Option<usize>)
    ensures
        match r {
            Some(i) => find_char(name@, c) == Some(i as int) && i < name@.len() && name@[
                i as int
            ] == c,
            None => find_char(name@, c) is None,
        },
{
    let len = name.unicode_len();
    let mut i: usize = 0;
    while i < len && name.get_char(i) != c
        invariant
            len == name@.len(),
            0 <= i <= len,
            forall|j: int| 0 <= j < i ==> name@[j] != c,
        decreases len - i,
    {
        i = i + 1;
    }
    proof {
        lemma_find_char_at(name@, c, i as int);
    }
    if i < len {
        Some(i)
    } else {
        None
    }
}

/// The greatest index at which `c` occurs in `name`, if any.
pub fn rfind_char_exec(name: &str, c: char) -> (r: Option<usize>)
    ensures
        match r {
            Some(i) => rfind_char(name@, c) == Some(i as int) && i < name@.len() && name@[
                i as int
            ] == c,
            None => rfind_char(name@, c) is None,
        },
{
    let len = name.unicode_len();
    let mut i: usize = len;
    while i > 0 && name.get_char(i - 1) != c
        invariant
            len == name@.len(),
            0 <= i <= len,
            forall|j: int| i <= j < len ==> name@[j] != c,
        decreases i,
    {
        i = i - 1;
    }
    proof {
        lemma_rfind_char_at(name@, c, i - 1);
    }
    if i > 0 {
        Some(i - 1)
    } else {
        None
    }
}

/// What `append_extension` produces: the stem followed by the extension of
/// the reference filename, where the extension is everything after the
/// reference's first `.`.
pub open spec fn spec_append_extension(stem: Seq<char>, reference: Seq<char>) -> Seq<char> {
    match find_char(reference, '.') {
        Some(i) => stem + seq!['.'] + reference.subrange(i + 1, reference.len() as int),
        None => stem,
    }
}

/// Carry the reference filename's (compound) extension over to a new stem:
/// `append_extension("u123", "report.tar.gz")` is `"u123.tar.gz"`.
pub fn append_extension(stem: &str, ref_filename: &str) -> (r: String)
    ensures
        r@ == spec_append_extension(stem@, ref_filename@),
{
    match find_char_exec(ref_filename, '.') {
        Some(i) => {
            let len = ref_filename.unicode_len();
            let ext = ref_filename.substring_char(i + 1, len);
            let mut r = String::new();
            r.append(stem);
            r.push('.');
            r.append(ext);
            proof {
                assert(r@ =~= spec_append_extension(stem@, ref_filename@));
            }
            r
        },
        None => {
            let mut r = String::new();
            r.append(stem);
            r
        },
    }
}

/// The stem of a filename, read up to its first `.`: for `"a.tar.gz"` it is
/// `"a"`; a filename without a dot is all stem.
pub open spec fn spec_stem_first_dot(name: Seq<char>) -> Seq<char> {
    match find_char(name, '.') {
        Some(i) => name.subrange(0, i),
        None => name,
    }
}

/// The extension of a filename, read from its first `.`: for `"a.tar.gz"`
/// it is `"tar.gz"`; `None` when the name holds no dot.
pub open spec fn spec_ext_first_dot(name: Seq<char>) -> Option<Seq<char>> {
    match find_char(name, '.') {
        Some(i) => Some(name.subrange(i + 1, name.len() as int)),
        None => None,
    }
}

/// Split a filename at its first `.`, so that a compound extension such as
/// `tar.gz` stays whole: `"a.tar.gz"` gives stem `"a"` and extension
/// `"tar.gz"`.
pub fn split_file_name(name: &str) -> (r: (String, Option<String>))
    ensures
        r.0@ == spec_stem_first_dot(name@),
        match r.1 {
            Some(e) => spec_ext_first_dot(name@) == Some(e@),
            None => spec_ext_first_dot(name@) is None,
        },
{
    match find_char_exec(name, '.') {
        Some(i) => {
            let len = name.unicode_len();
            let stem = name.substring_char(0, i);
            let ext = name.substring_char(i + 1, len);
            let mut s = String::new();
            s.append(stem);
            let mut e = String::new();
            e.append(ext);
            (s, Some(e))
        },
        None => {
            let mut s = String::new();
            s.append(name);
            (s, None)
        },
    }
}

/// The decimal digit character for a value below ten.
pub open spec fn dec_digit(d: int) -> char {
    if d == 0 {
        '0'
    } else if d == 1 {
        '1'
    } else if d == 2 {
        '2'
    } else if d == 3 {
        '3'
    } else if d == 4 {
        '4'
    } else if d == 5 {
        '5'
    } else if d == 6 {
        '6'
    } else if d == 7 {
        '7'
    } else if d == 8 {
        '8'
    } else {
        '9'
    }
}

/// The usual decimal notation of a natural number, without leading zeros.
pub open spec fn spec_dec(n: nat) -> Seq<char>
    decreases n,
{
    if n < 10 {
        seq![dec_digit(n as int)]
    } else {
        spec_dec(n / 10).push(dec_digit((n % 10) as int))
    }
}

fn dec_digit_exec(d: u64) -> (r: char)
    requires
        d < 10,
    ensures
        r == dec_digit(d as int),
{
    if d == 0 {
        '0'
    } else if d == 1 {
        '1'
    } else if d == 2 {
        '2'
    } else if d == 3 {
        '3'
    } else if d == 4 {
        '4'
    } else if d == 5 {
        '5'
    } else if d == 6 {
        '6'
    } else if d == 7 {
        '7'
    } else if d == 8 {
        '8'
    } else {
        '9'
    }
}

/// Append the decimal notation of `n` to `out`.
pub fn push_dec(out: &mut String, n: u64)
    ensures
        final(out)@ == old(out)@ + spec_dec(n as nat),
    decreases n,
{
    if n < 10 {
        out.push(dec_digit_exec(n));
        proof {
            assert(final(out)@ =~= old(out)@ + spec_dec(n as nat));
        }
    } else {
        push_dec(out, n / 10);
        out.push(dec_digit_exec(n % 10));
        proof {
            assert(final(out)@ =~= old(out)@ + spec_dec(n as nat));
        }
    }
}

/// The decimal notation of `n`.
pub fn u64_to_dec(n: u64) -> (r: String)
    ensures
        r@ == spec_dec(n as nat),
{
    let mut r = String::new();
    push_dec(&mut r, n);
    proof {
        assert(r@ =~= spec_dec(n as nat));
    }
    r
}

/// Decimal notations of one digit have length one; larger numbers have more.
pub proof fn lemma_dec_len(n: nat)
    ensures
        n < 10 ==> spec_dec(n).len() == 1,
        n >= 10 ==> spec_dec(n).len() >= 2,
        spec_dec(n).len() >= 1,
    decreases n,
{
    if n >= 10 {
        lemma_dec_len(n / 10);
    }
}

/// Decimal notation tells the numbers apart: distinct naturals never share
/// a decimal string.
pub proof fn lemma_dec_injective(a: nat, b: nat)
    requires
        spec_dec(a) == spec_dec(b),
    ensures
        a == b,
    decreases a,
{
    lemma_dec_len(a);
    lemma_dec_len(b);
    if a < 10 && b < 10 {
        assert(spec_dec(a)[0] == dec_digit(a as int));
        assert(spec_dec(b)[0] == dec_digit(b as int));
    } else if a >= 10 && b >= 10 {
        let pa = spec_dec(a / 10);
        let pb = spec_dec(b / 10);
        assert(spec_dec(a) == pa.push(dec_digit((a % 10) as int)));
        assert(spec_dec(b) == pb.push(dec_digit((b % 10) as int)));
        assert(pa.len() == pb.len());
        assert(forall|i: int|
            0 <= i < pa.len() ==> pa[i] == pa.push(dec_digit((a % 10) as int))[i] && pb[i]
                == pb.push(dec_digit((b % 10) as int))[i]);
        assert(pa =~= pb);
        assert(spec_dec(a).last() == dec_digit((a % 10) as int));
        assert(spec_dec(b).last() == dec_digit((b % 10) as int));
        assert(a % 10 == b % 10);
        lemma_dec_injective(a / 10, b / 10);
    }
}

/// A run of `k` zero characters.
pub open spec fn zero_run(k: nat) -> Seq<char>
    decreases k,
{
    if k == 0 {
        Seq::<char>::empty()
    } else {
        zero_run((k - 1) as nat).push('0')
    }
}

/// The digits-and-zeros notation of `n` padded at the left to `width`
/// characters, as in a calendar date's `04` or `2024`.
pub open spec fn spec_pad_dec(n: nat, width: nat) -> Seq<char> {
    if spec_dec(n).len() >= width {
        spec_dec(n)
    } else {
        zero_run((width - spec_dec(n).len()) as nat) + spec_dec(n)
    }
}

/// Append `n` in decimal, left-padded with zeros to at least `width`
/// characters.
pub fn push_pad_dec(out: &mut String, n: u64, width: u64)
    ensures
        final(out)@ == old(out)@ + spec_pad_dec(n as nat, width as nat),
{
    let digits = u64_to_dec(n);
    let dlen = digits.as_str().unicode_len();
    if (dlen as u64) < width {
        let mut k: u64 = width - dlen as u64;
        proof {
            assert(out@ =~= old(out)@ + zero_run(0));
        }
        while k > 0
            invariant
                dlen == spec_dec(n as nat).len(),
                dlen < width,
                k <= width - dlen,
                out@ =~= old(out)@ + zero_run((width - dlen - k) as nat),
            decreases k,
        {
            out.push('0');
            k = k - 1;
            proof {
                assert(zero_run((width - dlen - k) as nat) =~= zero_run(
                    (width - dlen - k - 1) as nat,
                ).push('0'));
                assert(out@ =~= old(out)@ + zero_run((width - dlen - k) as nat));
            }
        }
    }
    out.append(digits.as_str());
    proof {
        assert(final(out)@ =~= old(out)@ + spec_pad_dec(n as nat, width as nat));
    }
}

/// `text` with ` (n)` appended, the form used to tell apart several
/// recordings of one conference.
pub open spec fn spec_append_number(text: Seq<char>, n: nat) -> Seq<char> {
    text + seq![' ', '('] + spec_dec(n) + seq![')']
}

/// Append ` (n)` to a name: `append_number("lecture", 2)` is
/// `"lecture (2)"`.
pub fn append_number(text: &str, number: u64) -> (r: String)
    ensures
        r@ == spec_append_number(text@, number as nat),
{
    let mut r = String::new();
    r.append(text);
    r.push(' ');
    r.push('(');
    push_dec(&mut r, number);
    r.push(')');
    proof {
        assert(r@ =~= spec_append_number(text@, number as nat));
    }
    r
}

/// What replacing a filename's (last) extension with `mp4` produces: text
/// after the last `.` is dropped, and `.mp4` appended.
pub open spec fn spec_with_mp4_extension(name: Seq<char>) -> Seq<char> {
    match rfind_char(name, '.') {
        Some(i) => name.subrange(0, i) + seq!['.', 'm', 'p', '4'],
        None => name + seq!['.', 'm', 'p', '4'],
    }
}

/// Replace the filename's extension with `mp4` (or append one): the
/// videos a module serves are stored as MP4 files.
pub fn make_mp4_extension(name: &str) -> (r: String)
    ensures
        r@ == spec_with_mp4_extension(name@),
{
    let mut r = String::new();
    match rfind_char_exec(name, '.') {
        Some(i) => {
            r.append(name.substring_char(0, i));
        },
        None => {
            r.append(name);
        },
    }
    r.push('.');
    r.push('m');
    r.push('p');
    r.push('4');
    proof {
        assert(r@ =~= spec_with_mp4_extension(name@));
    }
    r
}

/// A nonempty trimmed string neither starts nor ends with whitespace.
proof fn lemma_trim_first_last_not_space(s: Seq<char>)
    requires
        spec_trim(s).len() > 0,
    ensures
        !is_space_char(spec_trim(s)[0]),
        !is_space_char(spec_trim(s)[spec_trim(s).len() - 1]),
{
    lemma_trim_start_head(s);
    let u = trim_start_rec(s);
    lemma_trim_end_props(u);
    assert(u.len() > 0);
    assert(spec_trim(s)[0] == u.subrange(0, spec_trim(s).len() as int)[0]);
    assert(spec_trim(s)[0] == u[0]);
}

/// The trimmed-from-the-start string is empty or starts with a non-space,
/// and trimming the end keeps that first character.
proof fn lemma_trim_start_head(s: Seq<char>)
    ensures
        trim_start_rec(s).len() == 0 || !is_space_char(trim_start_rec(s)[0]),
    decreases s.len(),
{
    if s.len() > 0 && is_space_char(s[0]) {
        lemma_trim_start_head(s.subrange(1, s.len() as int));
    }
}

/// Trimming the end keeps a prefix, so a non-space head survives; the last
/// character of the result is not a space.
proof fn lemma_trim_end_props(s: Seq<char>)
    ensures
        trim_end_rec(s).len() == 0 || !is_space_char(trim_end_rec(s)[trim_end_rec(s).len() - 1]),
        trim_end_rec(s).len() <= s.len(),
        trim_end_rec(s) =~= s.subrange(0, trim_end_rec(s).len() as int),
    decreases s.len(),
{
    if s.len() > 0 && is_space_char(s[s.len() - 1]) {
        let t = s.subrange(0, s.len() - 1);
        lemma_trim_end_props(t);
        assert(t.subrange(0, trim_end_rec(t).len() as int) =~= s.subrange(
            0,
            trim_end_rec(t).len() as int,
        ));
    } else {
        assert(s.subrange(0, s.len() as int) =~= s);
    }
}

/// What parsing an RFC 3339 timestamp yields, in milliseconds since the
/// epoch.  Relies on chrono's `DateTime::parse_from_rfc3339`: the parse is
/// a pure function of the text.
pub uninterp spec fn rfc3339_millis(s: Seq<char>) -> Option<int>;

/// Relies on chrono's `DateTime::parse_from_rfc3339` and
/// `timestamp_millis`: the moment the text denotes, in milliseconds since
/// the epoch, or nothing when the text is not a valid RFC 3339 timestamp.
#[verifier::external_body]
pub fn parse_time(time: &str) -> (r: Option<i64>)
    ensures
        match r {
            Some(v) => rfc3339_millis(time@) == Some(v as int),
            None => rfc3339_millis(time@) is None,
        },
{
    chrono::DateTime::parse_from_rfc3339(time).ok().map(|t| t.timestamp_millis())
}

/// The UTC calendar date of a moment, as (year, month, day).  Relies on
/// chrono: the date is a pure function of the timestamp.
pub uninterp spec fn utc_ymd(millis: int) -> (int, int, int);

/// Relies on chrono's `DateTime::from_timestamp_millis` and the `Datelike`
/// accessors: the UTC calendar date of a post-epoch moment; a moment beyond
/// chrono's calendar range falls back to the epoch's date.  Chrono
/// documents `month()` as 1 to 12 and `day()` as 1 to 31, and a post-epoch
/// moment's year is at least 1970.
#[verifier::external_body]
pub fn utc_date(millis: i64) -> (r: crate::resource::DateStamp)
    requires
        millis >= 0,
    ensures
        utc_ymd(millis as int) == (r.year as int, r.month as int, r.day as int),
        1970 <= r.year,
        1 <= r.month <= 12,
        1 <= r.day <= 31,
{
    let t = chrono::DateTime::<chrono::Utc>::from_timestamp_millis(millis)
        .unwrap_or(chrono::DateTime::<chrono::Utc>::UNIX_EPOCH);
    crate::resource::DateStamp {
        year: t.year() as u64,
        month: t.month() as u64,
        day: t.day() as u64,
    }
}

/// The least index at which `pat` occurs as a block in `s`, if any.
pub open spec fn find_str(s: Seq<char>, pat: Seq<char>) -> Option<int>
    decreases s.len(),
{
    if pat.len() == 0 {
        Some(0)
    } else if s.len() < pat.len() {
        None
    } else if s.subrange(0, pat.len() as int) == pat {
        Some(0)
    } else {
        match find_str(s.subrange(1, s.len() as int), pat) {
            Some(i) => Some(i + 1),
            None => None,
        }
    }
}

proof fn lemma_find_str_at(s: Seq<char>, pat: Seq<char>, k: int)
    requires
        pat.len() > 0,
        0 <= k,
        k + pat.len() <= s.len() + 1,
        forall|j: int| 0 <= j < k ==> #[trigger] s.subrange(j, j + pat.len() as int) != pat,
        k + pat.len() <= s.len() ==> s.subrange(k, k + pat.len() as int) == pat,
        k + pat.len() == s.len() + 1 ==> forall|j: int|
            0 <= j && j + pat.len() <= s.len() ==> #[trigger] s.subrange(j, j + pat.len() as int)
                != pat,
    ensures
        k + pat.len() <= s.len() ==> find_str(s, pat) == Some(k),
        k + pat.len() == s.len() + 1 ==> find_str(s, pat) is None,
    decreases s.len(),
{
    if s.len() < pat.len() {
    } else if k == 0 && k + pat.len() <= s.len() {
    } else {
        assert(s.subrange(0, pat.len() as int) != pat) by {
            if k > 0 {
                assert(s.subrange(0, 0 + pat.len() as int) != pat);
            } else {
                assert(k + pat.len() == s.len() + 1 && pat.len() <= s.len());
                assert(s.subrange(0, 0 + pat.len() as int) != pat);
            }
        }
        let t = s.subrange(1, s.len() as int);
        assert forall|j: int|
            0 <= j && j + pat.len() <= t.len() implies #[trigger] t.subrange(
            j,
            j + pat.len() as int,
        ) == s.subrange(j + 1, j + 1 + pat.len() as int) by {
            assert(t.subrange(j, j + pat.len() as int) =~= s.subrange(
                j + 1,
                j + 1 + pat.len() as int,
            ));
        }
        assert forall|j: int| 0 <= j < k - 1 implies #[trigger] t.subrange(
            j,
            j + pat.len() as int,
        ) != pat by {
            assert(s.subrange(j + 1, j + 1 + pat.len() as int) != pat);
        }
        if k + pat.len() <= s.len() {
            assert(t.subrange(k - 1, k - 1 + pat.len() as int) == s.subrange(
                k,
                k + pat.len() as int,
            ));
        } else {
            assert forall|j: int|
                0 <= j && j + pat.len() <= t.len() implies #[trigger] t.subrange(
                j,
                j + pat.len() as int,
            ) != pat by {
                assert(s.subrange(j + 1, j + 1 + pat.len() as int) != pat);
            }
        }
        lemma_find_str_at(t, pat, k - 1);
    }
}

/// Find the first block occurrence of a nonempty `pat` in `s`.
pub fn find_str_exec(s: &str, pat: &str) -> (r: Option<usize>)
    requires
        pat@.len() > 0,
    ensures
        match r {
            Some(i) => find_str(s@, pat@) == Some(i as int) && i + pat@.len() <= s@.len(),
            None => find_str(s@, pat@) is None,
        },
{
    let slen = s.unicode_len();
    let plen = pat.unicode_len();
    if plen > slen {
        return None;
    }
    let mut i: usize = 0;
    while i <= slen - plen
        invariant
            slen == s@.len(),
            plen == pat@.len(),
            0 < plen <= slen,
            0 <= i <= slen - plen + 1,
            forall|j: int| 0 <= j < i ==> #[trigger] s@.subrange(j, j + pat@.len() as int) != pat@,
        decreases slen - i,
    {
        let window = s.substring_char(i, i + plen);
        if crate::resource::str_eq(window, pat) {
            proof {
                lemma_find_str_at(s@, pat@, i as int);
            }
            return Some(i);
        }
        proof {
            assert(s@.subrange(i as int, i + pat@.len() as int) != pat@);
        }
        i = i + 1;
    }
    proof {
        lemma_find_str_at(s@, pat@, i as int);
    }
    None
}

} // verus!
