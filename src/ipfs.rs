use vstd::prelude::*;

use crate::error::NftgenError;

verus! {

/// What `std::str::from_utf8` makes of `b`: its text, or `None` where `b` is
/// not UTF-8.
pub uninterp spec fn utf8_text(b: Seq<u8>) -> Option<Seq<char>>;

/// Whether `c` has the Unicode White_Space property, which is what
/// `char::is_whitespace` tests: these 25 code points.
pub open spec fn unicode_white_space(c: char) -> bool {
    ('\u{9}' <= c && c <= '\u{d}') || c == ' ' || c == '\u{85}' || c == '\u{a0}' || c == '\u{1680}'
        || ('\u{2000}' <= c && c <= '\u{200a}') || c == '\u{2028}' || c == '\u{2029}' || c == '\u{202f}'
        || c == '\u{205f}' || c == '\u{3000}'
}

/// Relies on std::str::from_utf8 to read bytes as UTF-8 text.
#[verifier::external_body]
fn decode_utf8(b: &[u8]) -> (r: Result<&str, std::str::Utf8Error>)
    ensures
        r is Ok <==> utf8_text(b@) is Some,
        r matches Ok(s) ==> utf8_text(b@) == Some(s@),
{
    std::str::from_utf8(b)
}

/// Whether `c` is whitespace, as `char::is_whitespace` says.
fn is_whitespace(c: char) -> (r: bool)
    ensures
        r == unicode_white_space(c),
{
    ('\u{9}' <= c && c <= '\u{d}') || c == ' ' || c == '\u{85}' || c == '\u{a0}' || c == '\u{1680}'
        || ('\u{2000}' <= c && c <= '\u{200a}') || c == '\u{2028}' || c == '\u{2029}' || c == '\u{202f}'
        || c == '\u{205f}' || c == '\u{3000}'
}

/// The largest archive, in bytes, that the upload service takes.
pub const MAX_CAR_SIZE: usize = 100_000_000;

/// The text after the last `\n` of `s`, or all of it where it has none.
pub open spec fn after_last_newline(s: Seq<char>) -> Seq<char>
    decreases s.len(),
{
    if s.len() == 0 {
        s
    } else if s.last() == '\n' {
        Seq::empty()
    } else {
        after_last_newline(s.drop_last()).push(s.last())
    }
}

/// `s` without a final line ending, `\n` or `\r\n`.
pub open spec fn without_line_ending(s: Seq<char>) -> Seq<char> {
    if s.len() > 0 && s.last() == '\n' {
        let t = s.drop_last();
        if t.len() > 0 && t.last() == '\r' {
            t.drop_last()
        } else {
            t
        }
    } else {
        s
    }
}

/// The last line of `s`, as `str::lines` gives it: `None` for no text.
pub open spec fn last_line(s: Seq<char>) -> Option<Seq<char>> {
    if s.len() == 0 {
        None
    } else {
        Some(after_last_newline(without_line_ending(s)))
    }
}

/// The first index from `i` on that holds no whitespace, or the length.
pub open spec fn skip_space(s: Seq<char>, i: int) -> int
    decreases s.len() - i,
{
    if i < 0 || i >= s.len() || !unicode_white_space(s[i]) {
        i
    } else {
        skip_space(s, i + 1)
    }
}

/// The first index from `i` on that holds whitespace, or the length.
pub open spec fn skip_word(s: Seq<char>, i: int) -> int
    decreases s.len() - i,
{
    if i < 0 || i >= s.len() || unicode_white_space(s[i]) {
        i
    } else {
        skip_word(s, i + 1)
    }
}

/// The second whitespace-separated word of `s`, as `split_whitespace().nth(1)` gives it.
pub open spec fn second_word(s: Seq<char>) -> Option<Seq<char>> {
    let a = skip_space(s, 0);
    let c = skip_space(s, skip_word(s, a));
    if a >= s.len() || c >= s.len() {
        None
    } else {
        Some(s.subrange(c, skip_word(s, c)))
    }
}

/// The content id that `ipfs add` reports: the second word of its last line.
pub open spec fn reported_cid(out: Seq<char>) -> Option<Seq<char>> {
    match last_line(out) {
        Some(line) => second_word(line),
        None => None,
    }
}

/// Whether `t` occurs in `s`.
pub open spec fn has_text(s: Seq<char>, t: Seq<char>) -> bool {
    exists|i: int| 0 <= i && i + t.len() <= s.len() && #[trigger] s.subrange(i, i + t.len()) == t
}

/// The characters of `s`.
fn chars_of(s: &str) -> (r: Vec<char>)
    ensures
        r@ == s@,
{
    let mut v: Vec<char> = Vec::new();
    for c in it: s.chars()
        invariant
            v@ == it.seq().take(it.index() as int),
    {
        v.push(c);
    }
    v
}

proof fn lemma_after_last_newline(t: Seq<char>, k: int)
    requires
        0 <= k <= t.len(),
        k == 0 || t[k - 1] == '\n',
        forall|j: int| k <= j < t.len() ==> t[j] != '\n',
    ensures
        after_last_newline(t) == t.subrange(k, t.len() as int),
    decreases t.len() - k,
{
    if t.len() > k {
        lemma_after_last_newline(t.drop_last(), k);
        assert(t.subrange(k, t.len() as int) =~= t.drop_last().subrange(k, t.len() - 1).push(t.last()));
    } else if t.len() > 0 {
        assert(t.last() == '\n');
    }
}

/// The first index from `i` on in `s[from..to]` where `space` says whether
/// the character is whitespace is no longer met.
fn skip_class(chars: &Vec<char>, from: usize, to: usize, i: usize, space: bool) -> (r: usize)
    requires
        from <= i <= to <= chars@.len(),
    ensures
        ({
            let line = chars@.subrange(from as int, to as int);
            r == from + if space { skip_space(line, i - from) } else { skip_word(line, i - from) }
        }),
        i <= r <= to,
{
    let ghost line = chars@.subrange(from as int, to as int);
    let mut j = i;
    while j < to && is_whitespace(chars[j]) == space
        invariant
            i <= j <= to,
            to <= chars@.len(),
            from <= i,
            line == chars@.subrange(from as int, to as int),
            (if space { skip_space(line, i - from) } else { skip_word(line, i - from) })
                == (if space { skip_space(line, j - from) } else { skip_word(line, j - from) }),
        decreases to - j,
    {
        assert(line[j - from] == chars@[j as int]);
        j += 1;
    }
    if j < to {
        assert(line[j - from] == chars@[j as int]);
    }
    j
}

/// Where the last line of non-empty text lies among its characters.
fn last_line_bounds(chars: &Vec<char>) -> (r: (usize, usize))
    requires
        chars@.len() > 0,
    ensures
        r.0 <= r.1 <= chars@.len(),
        last_line(chars@) == Some(chars@.subrange(r.0 as int, r.1 as int)),
{
    let n = chars.len();
    let mut e = n;
    if chars[e - 1] == '\n' {
        e -= 1;
        if e > 0 && chars[e - 1] == '\r' {
            e -= 1;
        }
    }
    let ghost body = without_line_ending(chars@);
    assert(body =~= chars@.take(e as int));
    let mut k = e;
    while k > 0 && chars[k - 1] != '\n'
        invariant
            k <= e <= n,
            n == chars@.len(),
            forall|j: int| k <= j < e ==> chars@[j] != '\n',
        decreases k,
    {
        k -= 1;
    }
    proof {
        lemma_after_last_newline(body, k as int);
        assert(body.subrange(k as int, e as int) =~= chars@.subrange(k as int, e as int));
    }
    (k, e)
}

/// Where the second word of `chars[from..to]` lies, if it has one.
fn second_word_bounds(chars: &Vec<char>, from: usize, to: usize) -> (r: Option<(usize, usize)>)
    requires
        from <= to <= chars@.len(),
    ensures
        ({
            let line = chars@.subrange(from as int, to as int);
            &&& r is Some <==> second_word(line) is Some
            &&& r matches Some((c, d)) ==> from <= c <= d <= to
                && second_word(line) == Some(chars@.subrange(c as int, d as int))
        }),
{
    let ghost line = chars@.subrange(from as int, to as int);
    let a = skip_class(chars, from, to, from, true);
    let b = skip_class(chars, from, to, a, false);
    let c = skip_class(chars, from, to, b, true);
    if a >= to || c >= to {
        return None;
    }
    let d = skip_class(chars, from, to, c, false);
    assert(line.subrange(c - from, d - from) =~= chars@.subrange(c as int, d as int));
    Some((c, d))
}

/// The content id in the output of `ipfs add`: the second word of its last
/// line. Fails where the output is not UTF-8 or has no such word.
pub fn parse_cid_from_ipfs_add_output(stdout: &[u8]) -> (r: Result<String, NftgenError>)
    ensures
        r matches Ok(cid) ==> utf8_text(stdout@) matches Some(text) && reported_cid(text) == Some(cid@),
        r is Ok <==> (utf8_text(stdout@) matches Some(text) && reported_cid(text) is Some),
        r matches Err(e) ==> (utf8_text(stdout@) is None && e is InvalidUtf8)
            || (e matches NftgenError::IpfsCommandError(c) && c@ == "ipfs add"@),
{
    let text = match decode_utf8(stdout) {
        Ok(text) => text,
        Err(e) => {
            return Err(NftgenError::InvalidUtf8(e));
        },
    };
    let chars = chars_of(text);
    if chars.len() == 0 {
        return Err(NftgenError::IpfsCommandError(String::from_str("ipfs add")));
    }
    let (k, e) = last_line_bounds(&chars);
    match second_word_bounds(&chars, k, e) {
        Some((c, d)) => Ok(String::from_str(text.substring_char(c, d))),
        None => Err(NftgenError::IpfsCommandError(String::from_str("ipfs add"))),
    }
}

/// Whether a line that the `ipfs daemon` prints says that it is ready.
pub fn daemon_is_ready(line: &str) -> (r: bool)
    ensures
        r == has_text(line@, "Daemon is ready"@),
{
    let needle = chars_of("Daemon is ready");
    let hay = chars_of(line);
    let m = needle.len();
    let n = hay.len();
    if m > n {
        return false;
    }
    let mut i: usize = 0;
    while i <= n - m
        invariant
            m <= n,
            hay@ == line@,
            needle@ == "Daemon is ready"@,
            m == needle@.len(),
            n == hay@.len(),
            forall|p: int| 0 <= p < i && p + m <= n ==> #[trigger] hay@.subrange(p, p + m) != needle@,
        decreases n - i,
    {
        let mut j: usize = 0;
        while j < m && hay[i + j] == needle[j]
            invariant
                j <= m,
                i + m <= n,
                m == needle@.len(),
                n == hay@.len(),
                forall|q: int| 0 <= q < j ==> hay@[i + q] == needle@[q],
            decreases m - j,
        {
            j += 1;
        }
        if j == m {
            assert(hay@.subrange(i as int, i + m) =~= needle@);
            return true;
        }
        assert(hay@.subrange(i as int, i + m)[j as int] != needle@[j as int]);
        i += 1;
    }
    false
}

/// Refuses an archive of `len` bytes, at `path`, that is larger than the
/// upload service takes.
pub fn check_car_size(len: usize, path: &str) -> (r: Result<(), NftgenError>)
    ensures
        r is Ok <==> len <= MAX_CAR_SIZE,
        r matches Err(e) ==> (e matches NftgenError::CarTooLarge(p) && p@ == path@),
{
    if len > MAX_CAR_SIZE {
        Err(NftgenError::CarTooLarge(String::from_str(path)))
    } else {
        Ok(())
    }
}

} // verus!
