use vstd::prelude::*;

verus! {

/// Relies on `String::push`: appends one character at the end.
#[verifier::external_body]
pub(crate) fn push_char(s: &mut String, c: char)
    ensures
        final(s)@ == old(s)@.push(c),
{
    s.push(c)
}

/// Appends every character of `cs`, in order.
pub(crate) fn push_chars(s: &mut String, cs: &Vec<char>)
    ensures
        final(s)@ == old(s)@ + cs@,
{
    let ghost start = s@;
    let mut i: usize = 0;
    while i < cs.len()
        invariant
            i <= cs@.len(),
            s@ == start + cs@.subrange(0, i as int),
        decreases cs@.len() - i,
    {
        push_char(s, cs[i]);
        i = i + 1;
        assert(cs@.subrange(0, i as int) == cs@.subrange(0, i - 1 as int).push(cs@[i - 1]));
    }
    assert(cs@.subrange(0, cs@.len() as int) == cs@);
}

/// `c` in upper case where it is an ASCII lower-case letter; else `c`.
pub open spec fn ascii_upper(c: char) -> char {
    if 'a' <= c && c <= 'z' { ((c as u32) - 32) as char } else { c }
}

/// `c` in lower case where it is an ASCII upper-case letter; else `c`.
pub open spec fn ascii_lower(c: char) -> char {
    if 'A' <= c && c <= 'Z' { ((c as u32) + 32) as char } else { c }
}

/// The text with every ASCII upper-case letter in lower case.
pub open spec fn lower_text(s: Seq<char>) -> Seq<char> {
    s.map_values(|c: char| ascii_lower(c))
}

/// The text with its first letter in upper case; where it starts with the
/// marker `*`, the letter after the marker instead.
pub open spec fn title_text(s: Seq<char>) -> Seq<char> {
    if s.len() == 0 {
        s
    } else if s[0] == '*' {
        if s.len() >= 2 { s.update(1, ascii_upper(s[1])) } else { s }
    } else {
        s.update(0, ascii_upper(s[0]))
    }
}

fn upper_char(c: char) -> (r: char)
    ensures
        r == ascii_upper(c),
{
    if 'a' <= c && c <= 'z' {
        proof {
            vstd::utf8::char_u32_cast(c, c as u32);
        }
        (((c as u32) - 32) as u8) as char
    } else {
        c
    }
}

fn lower_char(c: char) -> (r: char)
    ensures
        r == ascii_lower(c),
{
    if 'A' <= c && c <= 'Z' {
        (((c as u32) + 32) as u8) as char
    } else {
        c
    }
}

/// A copy of `s` with every ASCII upper-case letter in lower case.
pub(crate) fn to_lower(s: &str) -> (r: String)
    ensures
        r@ == lower_text(s@),
{
    let n = s.unicode_len();
    let mut out = String::new();
    let mut i: usize = 0;
    while i < n
        invariant
            n == s@.len(),
            i <= n,
            out@ == lower_text(s@.take(i as int)),
        decreases n - i,
    {
        let c = s.get_char(i);
        push_char(&mut out, lower_char(c));
        assert(lower_text(s@.take(i + 1)) == lower_text(s@.take(i as int)).push(ascii_lower(c)));
        i = i + 1;
    }
    assert(s@.take(n as int) == s@);
    out
}

/// Whether two texts hold the same characters.
pub(crate) fn same_text(a: &str, b: &str) -> (r: bool)
    ensures
        r == (a@ == b@),
{
    let n = a.unicode_len();
    if n != b.unicode_len() {
        return false;
    }
    let mut i: usize = 0;
    while i < n
        invariant
            n == a@.len(),
            n == b@.len(),
            i <= n,
            forall|j: int| 0 <= j < i ==> a@[j] == b@[j],
        decreases n - i,
    {
        if a.get_char(i) != b.get_char(i) {
            return false;
        }
        i = i + 1;
    }
    assert(a@ == b@);
    true
}

/// Capitalizes a name for display: the first character in upper case, or,
/// where the name starts with the marker `*`, the character after it.
pub fn to_title_case(s: String) -> (r: String)
    ensures
        r@ == title_text(s@),
{
    let n = s.as_str().unicode_len();
    let mut out = String::new();
    let mut i: usize = 0;
    let starred = n > 0 && s.as_str().get_char(0) == '*';
    let at: usize = if starred { 1 } else { 0 };
    while i < n
        invariant
            n == s@.len(),
            i <= n,
            starred == (n > 0 && s@[0] == '*'),
            at == (if starred { 1usize } else { 0usize }),
            out@.len() == i,
            forall|j: int|
                0 <= j < i ==> #[trigger] out@[j] == (if j == at { ascii_upper(s@[j]) } else { s@[j] }),
        decreases n - i,
    {
        let c = s.as_str().get_char(i);
        let d = if i == at { upper_char(c) } else { c };
        push_char(&mut out, d);
        i = i + 1;
    }
    proof {
        if n == 0 {
            assert(out@ == title_text(s@));
        } else if starred {
            if n >= 2 {
                assert(out@ == title_text(s@));
            } else {
                assert(out@ == title_text(s@));
            }
        } else {
            assert(out@ == title_text(s@));
        }
    }
    out
}

/// Lower-casing twice is lower-casing once.
pub proof fn lemma_lower_idempotent(s: Seq<char>)
    ensures
        lower_text(lower_text(s)) == lower_text(s),
{
    assert forall|i: int| 0 <= i < s.len() implies #[trigger] lower_text(lower_text(s))[i] == lower_text(s)[i] by {
        let c = s[i];
        if 'A' <= c && c <= 'Z' {
            assert(ascii_lower(ascii_lower(c)) == ascii_lower(c));
        }
    }
    assert(lower_text(lower_text(s)) == lower_text(s));
}

} // verus!
