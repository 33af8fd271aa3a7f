use vstd::prelude::*;

verus! {

/// A decimal digit character.
pub open spec fn is_digit_char(c: char) -> bool {
    '0' <= c && c <= '9'
}

/// Tests a character for being a decimal digit.
pub fn digit_char_check(c: char) -> (r: bool)
    ensures
        r == is_digit_char(c),
{
    '0' <= c && c <= '9'
}

/// The characters of a string, as a vector, in order.
pub fn chars_vec(s: &str) -> (r: Vec<char>)
    ensures
        r@ == s@,
{
    let n = s.unicode_len();
    let mut v: Vec<char> = Vec::new();
    let mut i: usize = 0;
    while i < n
        invariant
            i <= n,
            n == s@.len(),
            v@ == s@.subrange(0, i as int),
        decreases n - i,
    {
        let c = s.get_char(i);
        v.push(c);
        proof {
            assert(v@ =~= s@.subrange(0, i + 1));
        }
        i += 1;
    }
    proof {
        assert(v@ =~= s@);
    }
    v
}

/// Relies on `String`'s `FromIterator<char>` implementation: collecting
/// characters yields the string of exactly those characters, in order.
#[verifier::external_body]
pub fn string_from_chars(v: &Vec<char>) -> (r: String)
    ensures
        r@ == v@,
{
    v.iter().collect()
}

/// Maximum number of characters of body text kept in a notification;
/// longer bodies are cut and marked with an ellipsis.
pub const TEXT_LIMIT: usize = 1000;

/// What a body text looks like after the truncation policy: text at or
/// under the limit is kept whole; longer text keeps exactly `limit`
/// characters and gains the three-dot marker. Characters are Unicode
/// code points, never bytes.
pub open spec fn truncate_spec(s: Seq<char>, limit: int) -> Seq<char> {
    if s.len() <= limit {
        s
    } else {
        s.subrange(0, limit) + "..."@
    }
}

/// Applies the truncation policy to a body text.
pub fn truncate_text(s: &str, limit: usize) -> (r: String)
    ensures
        r@ == truncate_spec(s@, limit as int),
{
    let n = s.unicode_len();
    if n <= limit {
        String::from_str(s)
    } else {
        let head = s.substring_char(0, limit);
        let mut out = String::from_str(head);
        out.append("...");
        out
    }
}

/// The truncation policy, spelled out: text longer than the limit keeps
/// exactly `limit` characters followed by the three-dot marker; text at
/// or under the limit is unchanged, and the original is never
/// reconstructed past the limit.
pub proof fn lemma_truncate_properties(s: Seq<char>, limit: int)
    requires
        0 <= limit,
    ensures
        s.len() > limit ==> truncate_spec(s, limit).len() == limit + 3,
        s.len() > limit ==> truncate_spec(s, limit).subrange(0, limit) == s.subrange(0, limit),
        s.len() > limit ==> truncate_spec(s, limit).subrange(limit, limit + 3) == "..."@,
        s.len() <= limit ==> truncate_spec(s, limit) == s,
{
    reveal_strlit("...");
    if s.len() > limit {
        let t = truncate_spec(s, limit);
        assert(t.subrange(0, limit) =~= s.subrange(0, limit));
        assert(t.subrange(limit, limit + 3) =~= "..."@);
    }
}

/// True when `s` begins with the characters of `prefix`.
pub open spec fn starts_with_spec(s: Seq<char>, prefix: Seq<char>) -> bool {
    s.len() >= prefix.len() && s.subrange(0, prefix.len() as int) == prefix
}

/// True when the string begins with the given prefix, counted in characters.
pub fn starts_with(s: &str, prefix: &str) -> (r: bool)
    ensures
        r == starts_with_spec(s@, prefix@),
{
    let n = s.unicode_len();
    let m = prefix.unicode_len();
    if n < m {
        return false;
    }
    let head = s.substring_char(0, m);
    let head_string = String::from_str(head);
    let prefix_string = String::from_str(prefix);
    head_string == prefix_string
}

/// Appends all characters of `src` to `dst`.
pub fn push_all(dst: &mut Vec<char>, src: &Vec<char>)
    ensures
        final(dst)@ == old(dst)@ + src@,
{
    let n = src.len();
    let mut i: usize = 0;
    while i < n
        invariant
            i <= n,
            n == src@.len(),
            dst@ == old(dst)@ + src@.subrange(0, i as int),
        decreases n - i,
    {
        dst.push(src[i]);
        proof {
            assert(old(dst)@ + src@.subrange(0, i as int) + seq![src@[i as int]] =~= old(dst)@
                + src@.subrange(0, i + 1));
        }
        i += 1;
    }
    proof {
        assert(old(dst)@ + src@.subrange(0, n as int) =~= old(dst)@ + src@);
    }
}

} // verus!
