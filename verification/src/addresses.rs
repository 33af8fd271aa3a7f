use vstd::prelude::*;

verus! {

use crate::text::chars_vec;

// The recipient header may carry display names, commas and several
// addresses. An address-shaped substring is `local@domain`: one or more
// local characters, an at sign, one or more domain characters, a dot,
// and a final label of at least two letters. Extraction walks the
// header left to right and takes, at each position where some address
// starts, the longest one, then continues after it, so matches never
// overlap and come in order of first appearance.

/// A character allowed in the local part of an address.
pub open spec fn is_local_char(c: char) -> bool {
    ('a' <= c && c <= 'z') || ('A' <= c && c <= 'Z') || ('0' <= c && c <= '9') || c == '.' || c
        == '_' || c == '%' || c == '+' || c == '-'
}

/// A character allowed in the domain part of an address.
pub open spec fn is_domain_char(c: char) -> bool {
    ('a' <= c && c <= 'z') || ('A' <= c && c <= 'Z') || ('0' <= c && c <= '9') || c == '.' || c
        == '-'
}

/// A letter, as allowed in the final label of a domain.
pub open spec fn is_alpha_char(c: char) -> bool {
    ('a' <= c && c <= 'z') || ('A' <= c && c <= 'Z')
}

pub fn local_char(c: char) -> (r: bool)
    ensures
        r == is_local_char(c),
{
    ('a' <= c && c <= 'z') || ('A' <= c && c <= 'Z') || ('0' <= c && c <= '9') || c == '.' || c
        == '_' || c == '%' || c == '+' || c == '-'
}

pub fn domain_char(c: char) -> (r: bool)
    ensures
        r == is_domain_char(c),
{
    ('a' <= c && c <= 'z') || ('A' <= c && c <= 'Z') || ('0' <= c && c <= '9') || c == '.' || c
        == '-'
}

pub fn alpha_char(c: char) -> (r: bool)
    ensures
        r == is_alpha_char(c),
{
    ('a' <= c && c <= 'z') || ('A' <= c && c <= 'Z')
}

/// `s` is exactly one address, split at `i` (the at sign) and `j` (the
/// dot that opens the final label).
pub open spec fn is_address_split(s: Seq<char>, i: int, j: int) -> bool {
    &&& 1 <= i
    &&& i + 2 <= j
    &&& j + 3 <= s.len()
    &&& (forall|k: int| 0 <= k < i ==> is_local_char(#[trigger] s[k]))
    &&& s[i] == '@'
    &&& (forall|k: int| i < k < j ==> is_domain_char(#[trigger] s[k]))
    &&& s[j] == '.'
    &&& (forall|k: int| j < k < s.len() ==> is_alpha_char(#[trigger] s[k]))
}

/// `s` is exactly one address.
pub open spec fn is_address(s: Seq<char>) -> bool {
    exists|i: int, j: int| is_address_split(s, i, j)
}

/// The length of the longest address that starts at `p` and is no longer
/// than `cap`, or 0 when none starts there.
pub open spec fn best_match_len(s: Seq<char>, p: int, cap: int) -> int
    decreases cap,
{
    if cap <= 0 {
        0
    } else if is_address(s.subrange(p, p + cap)) {
        cap
    } else {
        best_match_len(s, p, cap - 1)
    }
}

pub proof fn lemma_best_match_len_bounds(s: Seq<char>, p: int, cap: int)
    requires
        cap >= 0,
    ensures
        0 <= best_match_len(s, p, cap) <= cap,
    decreases cap,
{
    if cap > 0 && !is_address(s.subrange(p, p + cap)) {
        lemma_best_match_len_bounds(s, p, cap - 1);
    }
}

/// The longest match is indeed an address, unless there is none.
pub proof fn lemma_best_match_is_address(s: Seq<char>, p: int, cap: int)
    ensures
        best_match_len(s, p, cap) > 0 ==> is_address(
            s.subrange(p, p + best_match_len(s, p, cap)),
        ),
    decreases cap,
{
    if cap > 0 && !is_address(s.subrange(p, p + cap)) {
        lemma_best_match_is_address(s, p, cap - 1);
    }
}

/// When an address of length `l` starts at `p` and no longer one does,
/// the longest-match length at `p` is exactly `l`.
pub proof fn lemma_best_match_exact(s: Seq<char>, p: int, cap: int, l: int)
    requires
        0 < l <= cap,
        is_address(s.subrange(p, p + l)),
        forall|m: int| l < m <= cap ==> !is_address(#[trigger] s.subrange(p, p + m)),
    ensures
        best_match_len(s, p, cap) == l,
    decreases cap,
{
    if cap > l {
        lemma_best_match_exact(s, p, cap - 1, l);
    }
}

/// When no address starts at `p`, the longest-match length is 0.
pub proof fn lemma_best_match_none(s: Seq<char>, p: int, cap: int)
    requires
        forall|m: int| 0 < m <= cap ==> !is_address(#[trigger] s.subrange(p, p + m)),
    ensures
        best_match_len(s, p, cap) == 0,
    decreases cap,
{
    if cap > 0 {
        lemma_best_match_none(s, p, cap - 1);
    }
}

/// Every address that the extraction yields, from position `p` on:
/// at each position, the longest address starting there, or else the
/// scan moves one character to the right.
pub open spec fn extract_from(s: Seq<char>, p: int) -> Seq<Seq<char>>
    decreases s.len() - p,
        via extract_from_dec
{
    if p < 0 || p >= s.len() {
        Seq::empty()
    } else {
        let l = best_match_len(s, p, s.len() - p);
        if l <= 0 {
            extract_from(s, p + 1)
        } else {
            seq![s.subrange(p, p + l)] + extract_from(s, p + l)
        }
    }
}

#[via_fn]
proof fn extract_from_dec(s: Seq<char>, p: int) {
    if 0 <= p < s.len() {
        lemma_best_match_len_bounds(s, p, s.len() - p);
    }
}

/// What address extraction yields for a whole header.
pub open spec fn extract_spec(s: Seq<char>) -> Seq<Seq<char>> {
    extract_from(s, 0)
}

/// Extraction only ever yields addresses: every element of the result
/// satisfies the address shape. Together with the definition of
/// `extract_from` this is the heart of the extraction contract: matches
/// are address-shaped, non-overlapping, in order of first appearance,
/// and determined by the header alone.
pub proof fn lemma_extract_yields_addresses(s: Seq<char>, p: int)
    ensures
        forall|k: int|
            0 <= k < extract_from(s, p).len() ==> is_address(#[trigger] extract_from(s, p)[k]),
    decreases s.len() - p,
{
    if p < 0 || p >= s.len() {
    } else {
        let l = best_match_len(s, p, s.len() - p);
        lemma_best_match_len_bounds(s, p, s.len() - p);
        if l <= 0 {
            lemma_extract_yields_addresses(s, p + 1);
            assert(extract_from(s, p) == extract_from(s, p + 1));
            assert forall|k: int| 0 <= k < extract_from(s, p).len() implies is_address(
                #[trigger] extract_from(s, p)[k],
            ) by {
                assert(extract_from(s, p)[k] == extract_from(s, p + 1)[k]);
            }
        } else {
            lemma_best_match_is_address(s, p, s.len() - p);
            lemma_extract_yields_addresses(s, p + l);
            let cur = s.subrange(p, p + l);
            let rest = extract_from(s, p + l);
            assert(extract_from(s, p) == seq![cur] + rest);
            assert forall|k: int| 0 <= k < extract_from(s, p).len() implies is_address(
                #[trigger] extract_from(s, p)[k],
            ) by {
                if k == 0 {
                    assert(extract_from(s, p)[0] == cur);
                } else {
                    assert(extract_from(s, p)[k] == rest[k - 1]);
                }
            }
        }
    }
}

/// Where each yielded address starts in the header, mirroring
/// `extract_from` match for match.
pub open spec fn extract_positions(s: Seq<char>, p: int) -> Seq<int>
    decreases s.len() - p,
        via extract_positions_dec
{
    if p < 0 || p >= s.len() {
        Seq::empty()
    } else {
        let l = best_match_len(s, p, s.len() - p);
        if l <= 0 {
            extract_positions(s, p + 1)
        } else {
            seq![p] + extract_positions(s, p + l)
        }
    }
}

#[via_fn]
proof fn extract_positions_dec(s: Seq<char>, p: int) {
    if 0 <= p < s.len() {
        lemma_best_match_len_bounds(s, p, s.len() - p);
    }
}

/// The matches stand in the header in order of first appearance and
/// never overlap: each yielded address is the substring of the header
/// at its position, positions never precede the scan start, and each
/// match ends before the next one begins.
pub proof fn lemma_extract_ordered(s: Seq<char>, p: int)
    requires
        0 <= p,
    ensures
        extract_positions(s, p).len() == extract_from(s, p).len(),
        forall|k: int|
            0 <= k < extract_from(s, p).len() ==> p <= #[trigger] extract_positions(s, p)[k],
        forall|k: int|
            0 <= k < extract_from(s, p).len() ==> #[trigger] extract_from(s, p)[k] == s.subrange(
                extract_positions(s, p)[k],
                extract_positions(s, p)[k] + extract_from(s, p)[k].len(),
            ),
        forall|k: int|
            0 <= k < extract_from(s, p).len() - 1 ==> #[trigger] extract_positions(s, p)[k]
                + extract_from(s, p)[k].len() <= extract_positions(s, p)[k + 1],
    decreases s.len() - p,
{
    if p >= s.len() {
    } else {
        let l = best_match_len(s, p, s.len() - p);
        lemma_best_match_len_bounds(s, p, s.len() - p);
        let from = extract_from(s, p);
        let pos = extract_positions(s, p);
        if l <= 0 {
            lemma_extract_ordered(s, p + 1);
            assert(from == extract_from(s, p + 1));
            assert(pos == extract_positions(s, p + 1));
            assert forall|k: int| 0 <= k < from.len() implies p <= #[trigger] pos[k] by {
                assert(pos[k] == extract_positions(s, p + 1)[k]);
            }
            assert forall|k: int| 0 <= k < from.len() implies #[trigger] from[k] == s.subrange(
                pos[k],
                pos[k] + from[k].len(),
            ) by {
                assert(from[k] == extract_from(s, p + 1)[k]);
            }
            assert forall|k: int| 0 <= k < from.len() - 1 implies #[trigger] pos[k] + from[k].len()
                <= pos[k + 1] by {
                assert(pos[k] == extract_positions(s, p + 1)[k]);
            }
        } else {
            lemma_extract_ordered(s, p + l);
            let from_rest = extract_from(s, p + l);
            let pos_rest = extract_positions(s, p + l);
            assert(from == seq![s.subrange(p, p + l)] + from_rest);
            assert(pos == seq![p] + pos_rest);
            assert(from.len() == 1 + from_rest.len());
            assert(pos.len() == 1 + pos_rest.len());
            assert forall|k: int| 0 <= k < from.len() implies p <= #[trigger] pos[k] by {
                if k > 0 {
                    assert(pos[k] == pos_rest[k - 1]);
                }
            }
            assert forall|k: int| 0 <= k < from.len() implies #[trigger] from[k] == s.subrange(
                pos[k],
                pos[k] + from[k].len(),
            ) by {
                if k == 0 {
                    assert(from[0] == s.subrange(p, p + l));
                    assert(pos[0] == p);
                    assert(from[0].len() == l);
                } else {
                    assert(from[k] == from_rest[k - 1]);
                    assert(pos[k] == pos_rest[k - 1]);
                }
            }
            assert forall|k: int| 0 <= k < from.len() - 1 implies #[trigger] pos[k] + from[k].len()
                <= pos[k + 1] by {
                if k == 0 {
                    assert(pos[0] == p && from[0].len() == l);
                    assert(pos[1] == pos_rest[0]);
                    assert(p + l <= pos_rest[0]);
                } else {
                    assert(pos[k] == pos_rest[k - 1]);
                    assert(from[k] == from_rest[k - 1]);
                    assert(pos[k + 1] == pos_rest[k]);
                }
            }
        }
    }
}

/// A dot position `j` can close an address whose at sign stands at `q`:
/// a dot with at least two letters right after it.
spec fn feasible_dot(s: Seq<char>, q: int, j: int) -> bool {
    &&& s[j] == '.'
    &&& j + 2 < s.len()
    &&& is_alpha_char(s[j + 1])
    &&& is_alpha_char(s[j + 2])
}

/// The length of the longest address starting at position `p`, or 0
/// when none starts there.
fn match_len_at(s: &Vec<char>, p: usize) -> (l: usize)
    requires
        p < s@.len(),
    ensures
        l as int == best_match_len(s@, p as int, s@.len() - p),
{
    let n = s.len();
    // The local part is a maximal run of local characters; the at sign
    // must stand right after it.
    let mut q: usize = p;
    while q < n && local_char(s[q])
        invariant
            p <= q <= n,
            n == s@.len(),
            forall|k: int| p <= k < q ==> is_local_char(#[trigger] s@[k]),
        decreases n - q,
    {
        q += 1;
    }
    if q == p || q == n || s[q] != '@' {
        proof {
            assert(!is_local_char('@'));
            assert forall|m: int| 0 < m <= s@.len() - p implies !is_address(
                #[trigger] s@.subrange(p as int, p + m),
            ) by {
                let sub = s@.subrange(p as int, p + m);
                if is_address(sub) {
                    let (i, j) = choose|i: int, j: int| is_address_split(sub, i, j);
                    assert(sub[i] == s@[p + i]);
                    if p + i < q {
                        assert(is_local_char(s@[p + i]));
                    } else if p + i > q {
                        assert(sub[q - p] == s@[q as int]);
                        assert(is_local_char(s@[q as int]));
                    } else {
                        assert(s@[q as int] == '@');
                        assert(p + i < p + m <= n);
                    }
                }
            }
            lemma_best_match_none(s@, p as int, s@.len() - p);
        }
        return 0;
    }
    // The domain is a maximal run of domain characters after the at sign.
    let mut r0: usize = q + 1;
    while r0 < n && domain_char(s[r0])
        invariant
            q + 1 <= r0 <= n,
            n == s@.len(),
            forall|k: int| q < k < r0 ==> is_domain_char(#[trigger] s@[k]),
        decreases n - r0,
    {
        r0 += 1;
    }
    // The dot that opens the final label: the rightmost feasible one
    // wins, which gives the longest address.
    let mut jj: usize = r0;
    let mut dot: usize = 0;
    let mut found: bool = false;
    while jj - q > 2 && !found
        invariant
            n == s@.len(),
            q + 1 <= r0 <= n,
            q + 1 <= jj <= r0,
            !found ==> forall|k: int| jj <= k < r0 ==> !feasible_dot(s@, q as int, k),
            found ==> q + 2 <= dot < r0 && feasible_dot(s@, q as int, dot as int) && (forall|
                k: int,
            |
                dot < k < r0 ==> !feasible_dot(s@, q as int, k)),
        decreases jj,
    {
        jj -= 1;
        if s[jj] == '.' && n - jj > 2 && alpha_char(s[jj + 1]) && alpha_char(s[jj + 2]) {
            found = true;
            dot = jj;
        }
    }
    proof {
        assert(!is_domain_char('@'));
        assert(is_domain_char('.'));
        assert(!is_alpha_char('.'));
    }
    if !found {
        proof {
            assert forall|m: int| 0 < m <= s@.len() - p implies !is_address(
                #[trigger] s@.subrange(p as int, p + m),
            ) by {
                let sub = s@.subrange(p as int, p + m);
                if is_address(sub) {
                    let (i, j) = choose|i: int, j: int| is_address_split(sub, i, j);
                    assert(is_address_split(sub, i, j));
                    lemma_forced_at(s@, p as int, m, i, j, q as int);
                    let jd = p + j;
                    // The dot of the split lies inside the domain run and
                    // is feasible, which the scan ruled out.
                    assert(sub[j] == s@[jd]);
                    if jd >= r0 {
                        assert(q < r0 <= jd < p + m <= n);
                        if r0 < jd {
                            assert(sub[r0 - p] == s@[r0 as int]);
                            assert(is_domain_char(s@[r0 as int]));
                        } else {
                            assert(s@[r0 as int] == '.');
                        }
                    }
                    assert(jd < r0);
                    assert(sub[j + 1] == s@[jd + 1]);
                    assert(is_alpha_char(s@[jd + 1]));
                    assert(sub[j + 2] == s@[jd + 2]);
                    assert(is_alpha_char(s@[jd + 2]));
                    assert(feasible_dot(s@, q as int, jd));
                }
            }
            lemma_best_match_none(s@, p as int, s@.len() - p);
        }
        return 0;
    }
    // The final label: a maximal run of letters after the chosen dot.
    let mut e: usize = dot + 1;
    while e < n && alpha_char(s[e])
        invariant
            dot + 1 <= e <= n,
            n == s@.len(),
            forall|k: int| dot < k < e ==> is_alpha_char(#[trigger] s@[k]),
        decreases n - e,
    {
        e += 1;
    }
    proof {
        if e < dot + 3 {
            assert(is_alpha_char(s@[e as int]));
        }
    }
    let l = e - p;
    proof {
        let pp = p as int;
        let sub = s@.subrange(pp, pp + l);
        assert forall|k: int| 0 <= k < sub.len() implies sub[k] == s@[pp + k] by {}
        assert(is_address_split(sub, q - pp, dot - pp));
        assert(is_address(sub));
        assert forall|m: int| l < m <= s@.len() - p implies !is_address(
            #[trigger] s@.subrange(pp, pp + m),
        ) by {
            let subm = s@.subrange(pp, pp + m);
            if is_address(subm) {
                let (i, j) = choose|i: int, j: int| is_address_split(subm, i, j);
                assert(is_address_split(subm, i, j));
                lemma_forced_at(s@, pp, m, i, j, q as int);
                let jd = pp + j;
                assert(subm[j] == s@[jd]);
                if jd >= r0 {
                    assert(q < r0 <= jd < pp + m <= n);
                    if r0 < jd {
                        assert(subm[r0 - pp] == s@[r0 as int]);
                        assert(is_domain_char(s@[r0 as int]));
                    } else {
                        assert(s@[r0 as int] == '.');
                    }
                }
                assert(jd < r0);
                if jd > dot {
                    assert(subm[j + 1] == s@[jd + 1]);
                    assert(is_alpha_char(s@[jd + 1]));
                    assert(subm[j + 2] == s@[jd + 2]);
                    assert(is_alpha_char(s@[jd + 2]));
                    assert(feasible_dot(s@, q as int, jd));
                } else if jd == dot {
                    // The whole tail is letters, so it ends within the
                    // letter run: the candidate is no longer than `l`.
                    if pp + m > e {
                        assert(e < n);
                        assert(subm[e - pp] == s@[e as int]);
                        assert(is_alpha_char(s@[e as int]));
                    }
                } else {
                    // A dot further left would put our dot inside the
                    // final label, where only letters stand.
                    assert(dot < pp + m);
                    assert(subm[dot - pp] == s@[dot as int]);
                    assert(is_alpha_char(s@[dot as int]));
                }
            }
        }
        lemma_best_match_exact(s@, pp, s@.len() - pp, l as int);
    }
    l
}

/// In an address starting at `p`, the at sign can only stand where the
/// maximal local run ends.
proof fn lemma_forced_at(s: Seq<char>, p: int, m: int, i: int, j: int, q: int)
    requires
        0 <= p,
        0 < m,
        p + m <= s.len(),
        is_address_split(s.subrange(p, p + m), i, j),
        p <= q < s.len(),
        s[q] == '@',
        forall|k: int| p <= k < q ==> is_local_char(#[trigger] s[k]),
        q == s.len() || !is_local_char(s[q]),
    ensures
        p + i == q,
{
    let sub = s.subrange(p, p + m);
    assert(!is_local_char('@'));
    assert(sub[i] == s[p + i]);
    if p + i < q {
        assert(is_local_char(s[p + i]));
    } else if p + i > q {
        assert(sub[q - p] == s[q]);
        assert(is_local_char(s[q]));
    }
}

/// All address-shaped substrings of the recipient header, left to
/// right, longest first at each position, without overlap. Duplicates
/// are kept. The result is a function of the header alone: extraction
/// is deterministic and idempotent.
pub fn extract_addresses(to_header: &str) -> (r: Vec<String>)
    ensures
        r@.map_values(|v: String| v@) == extract_spec(to_header@),
{
    let s = chars_vec(to_header);
    let n = s.len();
    let mut result: Vec<String> = Vec::new();
    let mut p: usize = 0;
    while p < n
        invariant
            p <= n,
            n == s@.len(),
            s@ == to_header@,
            extract_spec(to_header@) == result@.map_values(|v: String| v@) + extract_from(
                s@,
                p as int,
            ),
        decreases n - p,
    {
        let l = match_len_at(&s, p);
        proof {
            lemma_best_match_len_bounds(s@, p as int, n - p);
        }
        if l == 0 {
            proof {
                assert(extract_from(s@, p as int) == extract_from(s@, p + 1));
            }
            p += 1;
        } else {
            let ghost before = result@.map_values(|v: String| v@);
            let ghost cur = s@.subrange(p as int, p + l);
            let piece = to_header.substring_char(p, p + l);
            let piece_string = String::from_str(piece);
            result.push(piece_string);
            proof {
                assert(piece_string@ == cur);
                assert(result@.map_values(|v: String| v@) =~= before.push(cur));
                assert(extract_from(s@, p as int) == seq![cur] + extract_from(s@, p + l));
                assert(before + (seq![cur] + extract_from(s@, p + l)) =~= before.push(cur)
                    + extract_from(s@, p + l));
            }
            p += l;
        }
    }
    proof {
        assert(result@.map_values(|v: String| v@) =~= extract_spec(to_header@));
    }
    result
}

} // verus!
