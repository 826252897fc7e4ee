//! Heading anchor allocator: derives a URL-safe identifier from a heading's
//! text and resolves collisions deterministically within one render pass.

use crate::strutil::{
    dec_string, lemma_dec_injective, push_char, push_chars, spec_dec, str_eq, to_chars,
};
use vstd::prelude::*;

verus! {

/// Whether a character counts as alphanumeric for identifier purposes.
/// The property depends on the character alone.
pub uninterp spec fn is_alnum_char(c: char) -> bool;

/// Relies on `char::is_alphanumeric`: the Unicode alphanumeric property of a
/// character.
#[verifier::external_body]
fn is_alphanumeric_exec(c: char) -> (r: bool)
    ensures
        r == is_alnum_char(c),
{
    c.is_alphanumeric()
}

/// The lowercase expansion of one character. The result depends on the
/// character alone.
pub uninterp spec fn lower_chars_of(c: char) -> Seq<char>;

/// Relies on `char::to_lowercase`: the Unicode lowercase mapping of a
/// character, possibly several characters long.
#[verifier::external_body]
fn lower_chars(c: char) -> (r: Vec<char>)
    ensures
        r@ == lower_chars_of(c),
{
    let mut out = Vec::new();
    for lc in c.to_lowercase() {
        out.push(lc);
    }
    out
}

/// The normalized remainder of a heading text from position `i`:
/// alphanumeric characters are lowercased, every run of other characters
/// collapses to one separator. `ign` records whether the previous character
/// already produced a separator.
pub open spec fn normalized_from(s: Seq<char>, i: int, ign: bool) -> Seq<char>
    decreases s.len() - i,
{
    if i < 0 || i >= s.len() {
        Seq::empty()
    } else if is_alnum_char(s[i]) {
        lower_chars_of(s[i]) + normalized_from(s, i + 1, false)
    } else if !ign {
        seq!['_'] + normalized_from(s, i + 1, true)
    } else {
        normalized_from(s, i + 1, true)
    }
}

/// The normalized form of a whole heading text.
pub open spec fn normalized(s: Seq<char>) -> Seq<char> {
    normalized_from(s, 0, false)
}

/// Normalize a heading text into its base identifier.
pub fn normalize_heading(s: &str) -> (r: String)
    ensures
        r@ == normalized(s@),
{
    let n = s.unicode_len();
    let mut r = String::new();
    let mut i: usize = 0;
    let mut ign = false;
    proof {
        assert(r@ + normalized_from(s@, 0, false) =~= normalized(s@));
    }
    while i < n
        invariant
            i <= n,
            n == s@.len(),
            r@ + normalized_from(s@, i as int, ign) == normalized(s@),
        decreases n - i,
    {
        let c = s.get_char(i);
        if is_alphanumeric_exec(c) {
            let lc = lower_chars(c);
            push_chars(&mut r, &lc);
            ign = false;
        } else if !ign {
            push_char(&mut r, '_');
            ign = true;
        }
        i = i + 1;
        proof {
            assert(r@ + normalized_from(s@, i as int, ign) =~= normalized(s@));
        }
    }
    proof {
        assert(r@ =~= normalized(s@));
    }
    r
}

/// The views of a vector of strings.
pub open spec fn views_of(ids: Seq<String>) -> Seq<Seq<char>> {
    ids.map_values(|s: String| s@)
}

/// The n-th collision candidate for a base identifier.
pub open spec fn candidate(base: Seq<char>, n: nat) -> Seq<char> {
    base + seq!['_'] + spec_dec(n)
}

/// The first free collision candidate at or after index `n`, searched with
/// bounded fuel.
pub open spec fn fresh_suffix(ids: Seq<Seq<char>>, base: Seq<char>, n: nat, fuel: nat) -> Seq<char>
    decreases fuel,
{
    if fuel == 0 {
        Seq::empty()
    } else if !ids.contains(candidate(base, n)) {
        candidate(base, n)
    } else {
        fresh_suffix(ids, base, n + 1, (fuel - 1) as nat)
    }
}

/// The identifier allocated for a base, given the identifiers issued so far:
/// the base itself when unused, otherwise the first free suffixed candidate
/// starting at 2.
pub open spec fn alloc_id(ids: Seq<Seq<char>>, base: Seq<char>) -> Seq<char> {
    if !ids.contains(base) {
        base
    } else {
        fresh_suffix(ids, base, 2, ids.len() + 1)
    }
}

/// Distinct indices give distinct candidates.
proof fn lemma_candidate_injective(base: Seq<char>, i: nat, j: nat)
    requires
        candidate(base, i) == candidate(base, j),
    ensures
        i == j,
{
    let ci = candidate(base, i);
    let cj = candidate(base, j);
    assert(ci.len() == base.len() + 1 + spec_dec(i).len());
    assert(cj.len() == base.len() + 1 + spec_dec(j).len());
    assert(spec_dec(i) =~= ci.subrange(base.len() as int + 1, ci.len() as int));
    assert(spec_dec(j) =~= cj.subrange(base.len() as int + 1, cj.len() as int));
    lemma_dec_injective(i, j);
}

/// If every candidate with index in `[2, n)` is already issued, there can be
/// at most `ids.len()` of them.
pub proof fn lemma_candidates_bound(ids: Seq<Seq<char>>, base: Seq<char>, n: nat)
    requires
        2 <= n,
        forall|m: nat| 2 <= m < n ==> ids.contains(#[trigger] candidate(base, m)),
    ensures
        n - 2 <= ids.len(),
{
    broadcast use vstd::seq_lib::seq_to_set_is_finite;

    let cands = Seq::new((n - 2) as nat, |j: int| candidate(base, (j + 2) as nat));
    assert forall|p: int, q: int|
        0 <= p < cands.len() && 0 <= q < cands.len() && p != q implies cands[p] != cands[q] by {
        if cands[p] == cands[q] {
            lemma_candidate_injective(base, (p + 2) as nat, (q + 2) as nat);
        }
    }
    assert(cands.no_duplicates());
    cands.unique_seq_to_set();
    ids.lemma_cardinality_of_set();
    assert forall|x: Seq<char>| cands.to_set().contains(x) implies ids.to_set().contains(x) by {
        let j = choose|j: int| 0 <= j < cands.len() && cands[j] == x;
        assert(ids.contains(candidate(base, (j + 2) as nat)));
    }
    assert(cands.to_set().subset_of(ids.to_set()));
    vstd::set_lib::lemma_len_subset(cands.to_set(), ids.to_set());
}

/// The bounded search finds the first free candidate when the fuel covers it.
proof fn lemma_fresh_suffix_reaches(
    ids: Seq<Seq<char>>,
    base: Seq<char>,
    n0: nat,
    n: nat,
    fuel: nat,
)
    requires
        n0 <= n,
        fuel >= n - n0 + 1,
        forall|m: nat| n0 <= m < n ==> ids.contains(#[trigger] candidate(base, m)),
        !ids.contains(candidate(base, n)),
    ensures
        fresh_suffix(ids, base, n0, fuel) == candidate(base, n),
    decreases n - n0,
{
    if n0 < n {
        assert(ids.contains(candidate(base, n0)));
        lemma_fresh_suffix_reaches(ids, base, n0 + 1, n, (fuel - 1) as nat);
    }
}

/// Whether some already-issued identifier has the given text.
fn contains_str(ids: &Vec<String>, s: &str) -> (r: bool)
    ensures
        r == views_of(ids@).contains(s@),
{
    let mut i: usize = 0;
    while i < ids.len()
        invariant
            i <= ids@.len(),
            forall|j: int| 0 <= j < i ==> views_of(ids@)[j] != s@,
        decreases ids@.len() - i,
    {
        if str_eq(ids[i].as_str(), s) {
            proof {
                assert(views_of(ids@)[i as int] == s@);
            }
            return true;
        }
        i = i + 1;
    }
    proof {
        if views_of(ids@).contains(s@) {
            let j = choose|j: int| 0 <= j < views_of(ids@).len() && views_of(ids@)[j] == s@;
            assert(false);
        }
    }
    false
}

/// Allocate a fresh identifier for a heading: normalize the text, then take
/// the base identifier or the first free `_n`-suffixed variant, record it,
/// and return it. The first heading with a given normalized text always gets
/// the bare identifier; later duplicates get suffixed, `n` starting at 2.
pub fn generate_heading_id(ids: &mut Vec<String>, heading: &str) -> (r: String)
    ensures
        r@ == alloc_id(views_of(old(ids)@), normalized(heading@)),
        views_of(final(ids)@) == views_of(old(ids)@).push(r@),
        !views_of(old(ids)@).contains(r@),
{
    let base = normalize_heading(heading);
    if !contains_str(ids, base.as_str()) {
        let r = base.clone();
        ids.push(base);
        proof {
            assert(views_of(ids@) =~= views_of(old(ids)@).push(r@));
        }
        return r;
    }
    let ghost idv = views_of(ids@);
    let ghost basev = base@;
    let cap = ids.len();
    let mut n: u128 = 2;
    loop
        invariant
            2 <= n,
            ids@ == old(ids)@,
            idv == views_of(ids@),
            idv.len() <= cap,
            cap <= usize::MAX,
            basev == base@,
            basev == normalized(heading@),
            n - 2 <= idv.len(),
            forall|m: nat| 2 <= m < n ==> idv.contains(#[trigger] candidate(basev, m)),
            idv.contains(basev),
        decreases idv.len() + 2 - n,
    {
        let mut cand = base.clone();
        cand.append("_");
        let ds = dec_string(n);
        cand.append(ds.as_str());
        proof {
            reveal_strlit("_");
            assert(cand@ =~= candidate(basev, n as nat));
        }
        if !contains_str(ids, cand.as_str()) {
            proof {
                lemma_fresh_suffix_reaches(idv, basev, 2, n as nat, idv.len() + 1);
                assert(cand@ == alloc_id(idv, basev));
            }
            let r = cand.clone();
            ids.push(cand);
            proof {
                assert(views_of(ids@) =~= idv.push(r@));
            }
            return r;
        }
        proof {
            lemma_candidates_bound(idv, basev, (n + 1) as nat);
        }
        n = n + 1;
    }
}

} // verus!
