//! Anchor-slug assignment with per-document deduplication.
//!
//! Each heading text is first normalized to an identifier-safe base slug
//! by the host's identifier normalization; duplicate bases within one
//! document then get a `-N` suffix, counting from 1.

use vstd::prelude::*;

verus! {

/// The identifier-safe base slug of a heading text.  The normalization is
/// deterministic and depends on the text alone.
pub uninterp spec fn slug_of(text: Seq<char>) -> Seq<char>;

/// Relies on `mdbook::utils::normalize_id`: a pure function of the text
/// alone (no external state), so its result is named by `slug_of`.  It
/// keeps only alphanumeric characters (ASCII letters lower-cased), `_`
/// and `-`, and turns whitespace into `-`, so its result never holds a
/// `#` character.
#[verifier::external_body]
pub(crate) fn normalize_id(text: &str) -> (r: String)
    ensures
        r@ == slug_of(text@),
        forall|k: int| 0 <= k < r@.len() ==> #[trigger] r@[k] != '#',
{
    mdbook::utils::normalize_id(text)
}

/// The decimal digit `d` as a character; meaningful for `d < 10`.
pub open spec fn digit_char(d: nat) -> char {
    if d == 0 {
        '0'
    } else if d == 1 {
        '1'
    } else if d == 2 {
        '2'
    } else if d == 3 {
        '3'
    } else if d == 4 {
        '4'
    } else if d == 5 {
        '5'
    } else if d == 6 {
        '6'
    } else if d == 7 {
        '7'
    } else if d == 8 {
        '8'
    } else {
        '9'
    }
}

/// The usual decimal rendering of `n`, most significant digit first, with
/// no leading zeros (except for `n == 0` itself).
pub open spec fn decimal(n: nat) -> Seq<char>
    decreases n,
{
    if n < 10 {
        seq![digit_char(n)]
    } else {
        decimal(n / 10) + seq![digit_char(n % 10)]
    }
}

fn digit_string(d: usize) -> (s: String)
    requires
        d < 10,
    ensures
        s@ == seq![digit_char(d as nat)],
{
    proof {
        reveal_strlit("0");
        reveal_strlit("1");
        reveal_strlit("2");
        reveal_strlit("3");
        reveal_strlit("4");
        reveal_strlit("5");
        reveal_strlit("6");
        reveal_strlit("7");
        reveal_strlit("8");
        reveal_strlit("9");
    }
    let s: &str = if d == 0 {
        "0"
    } else if d == 1 {
        "1"
    } else if d == 2 {
        "2"
    } else if d == 3 {
        "3"
    } else if d == 4 {
        "4"
    } else if d == 5 {
        "5"
    } else if d == 6 {
        "6"
    } else if d == 7 {
        "7"
    } else if d == 8 {
        "8"
    } else {
        "9"
    };
    proof {
        assert(s@ =~= seq![digit_char(d as nat)]);
    }
    s.to_owned()
}

fn usize_to_decimal(n: usize) -> (s: String)
    ensures
        s@ == decimal(n as nat),
    decreases n,
{
    if n < 10 {
        digit_string(n)
    } else {
        let mut s = usize_to_decimal(n / 10);
        let d = digit_string(n % 10);
        s.append(d.as_str());
        s
    }
}

/// How many entries of `s` equal `b`.
pub open spec fn count_eq(s: Seq<Seq<char>>, b: Seq<char>) -> nat
    decreases s.len(),
{
    if s.len() == 0 {
        0
    } else {
        count_eq(s.drop_last(), b) + (if s.last() == b {
            1nat
        } else {
            0nat
        })
    }
}

/// The views of a list of strings.
pub open spec fn string_views(ss: Seq<String>) -> Seq<Seq<char>> {
    ss.map_values(|s: String| s@)
}

/// The base slugs of a list of heading texts.
pub open spec fn base_slugs(texts: Seq<Seq<char>>) -> Seq<Seq<char>> {
    texts.map_values(|t: Seq<char>| slug_of(t))
}

/// The slug assigned to position `i`, given all base slugs of the
/// document: the first occurrence of a base keeps it unchanged, the Nth
/// later occurrence gets `-N` appended.
pub open spec fn slug_at(bases: Seq<Seq<char>>, i: int) -> Seq<char> {
    let c = count_eq(bases.take(i), bases[i]);
    if c == 0 {
        bases[i]
    } else {
        bases[i] + "-"@ + decimal(c)
    }
}

proof fn lemma_decimal_len(n: nat)
    ensures
        decimal(n).len() >= 1,
        n >= 10 ==> decimal(n).len() >= 2,
    decreases n,
{
    if n >= 10 {
        lemma_decimal_len(n / 10);
    }
}

proof fn lemma_decimal_injective(m: nat, n: nat)
    requires
        decimal(m) == decimal(n),
    ensures
        m == n,
    decreases m,
{
    lemma_decimal_len(m);
    lemma_decimal_len(n);
    if m < 10 && n < 10 {
        assert(decimal(m) == seq![digit_char(m)]);
        assert(decimal(n) == seq![digit_char(n)]);
        assert(seq![digit_char(m)][0] == digit_char(m));
        assert(seq![digit_char(n)][0] == digit_char(n));
        assert(digit_char(m) == digit_char(n));
        assert(m == n);
    } else if m < 10 && n >= 10 {
        assert(decimal(m).len() == 1);
        assert(false);
    } else if m >= 10 && n < 10 {
        assert(decimal(n).len() == 1);
        assert(false);
    } else {
        let dm = decimal(m / 10);
        let dn = decimal(n / 10);
        let a = digit_char(m % 10);
        let b = digit_char(n % 10);
        assert(decimal(m) == dm + seq![a]);
        assert(decimal(n) == dn + seq![b]);
        assert(dm.len() == dn.len());
        assert((dm + seq![a])[dm.len() as int] == a);
        assert((dn + seq![b])[dn.len() as int] == b);
        assert(a == b);
        assert(m % 10 == n % 10);
        assert(dm =~= dn) by {
            assert(forall|k: int|
                0 <= k < dm.len() ==> dm[k] == (dm + seq![a])[k] && dn[k] == (dn + seq![b])[k]);
        }
        lemma_decimal_injective(m / 10, n / 10);
    }
}

proof fn lemma_count_step(bases: Seq<Seq<char>>, i: int, j: int, b: Seq<char>)
    requires
        0 <= i < j <= bases.len(),
        bases[i] == b,
    ensures
        count_eq(bases.take(j), b) > count_eq(bases.take(i), b),
    decreases j,
{
    assert(bases.take(j).drop_last() =~= bases.take(j - 1));
    assert(bases.take(j).last() == bases[j - 1]);
    if j - 1 > i {
        lemma_count_step(bases, i, j - 1, b);
    }
}

proof fn lemma_decimal_hash_free(n: nat)
    ensures
        forall|k: int| 0 <= k < decimal(n).len() ==> #[trigger] decimal(n)[k] != '#',
    decreases n,
{
    if n >= 10 {
        lemma_decimal_hash_free(n / 10);
        assert(decimal(n) == decimal(n / 10) + seq![digit_char(n % 10)]);
    }
}

/// An assigned slug holds no `#` character as long as its base slug
/// holds none: the deduplication suffix adds only `-` and digits.
pub proof fn lemma_slug_hash_free(bases: Seq<Seq<char>>, i: int)
    requires
        0 <= i < bases.len(),
        forall|k: int| 0 <= k < bases[i].len() ==> #[trigger] bases[i][k] != '#',
    ensures
        forall|k: int| 0 <= k < slug_at(bases, i).len() ==> #[trigger] slug_at(bases, i)[k]
            != '#',
{
    reveal_strlit("-");
    let c = count_eq(bases.take(i), bases[i]);
    if c != 0 {
        lemma_decimal_hash_free(c);
        assert(slug_at(bases, i) == bases[i] + "-"@ + decimal(c));
    }
}

/// Duplicate heading texts are the only source of slug collision, and
/// they are always resolved: two headings whose base slugs are equal
/// receive distinct slugs, whatever stands between them.
pub proof fn lemma_duplicates_resolved(bases: Seq<Seq<char>>, i: int, j: int)
    requires
        0 <= i < j < bases.len(),
        bases[i] == bases[j],
    ensures
        slug_at(bases, i) != slug_at(bases, j),
{
    reveal_strlit("-");
    let b = bases[j];
    let ci = count_eq(bases.take(i), b);
    let cj = count_eq(bases.take(j), b);
    lemma_count_step(bases, i, j, b);
    lemma_decimal_len(cj);
    if ci == 0 {
        assert(slug_at(bases, i) == b);
        assert(slug_at(bases, j).len() >= b.len() + 2);
    } else {
        lemma_decimal_len(ci);
        if slug_at(bases, i) == slug_at(bases, j) {
            let si = b + "-"@ + decimal(ci);
            let sj = b + "-"@ + decimal(cj);
            assert(si == sj);
            assert(decimal(ci).len() == decimal(cj).len());
            assert(decimal(ci) =~= decimal(cj)) by {
                assert(forall|k: int|
                    0 <= k < decimal(ci).len() ==> decimal(ci)[k] == si[b.len() + 1 + k]
                        && decimal(cj)[k] == sj[b.len() + 1 + k]);
            }
            lemma_decimal_injective(ci, cj);
            assert(false);
        }
    }
}

/// The slugs assigned to a whole document's heading texts, in order.
pub open spec fn assigned_slugs(texts: Seq<Seq<char>>) -> Seq<Seq<char>> {
    Seq::new(texts.len(), |i: int| slug_at(base_slugs(texts), i))
}

/// Two headings with the same base slug — duplicate text being the
/// typical cause — never share an assigned slug.
pub proof fn lemma_assigned_slugs_distinct(texts: Seq<Seq<char>>, i: int, j: int)
    requires
        0 <= i < j < texts.len(),
        base_slugs(texts)[i] == base_slugs(texts)[j],
    ensures
        assigned_slugs(texts)[i] != assigned_slugs(texts)[j],
{
    lemma_duplicates_resolved(base_slugs(texts), i, j);
}

/// Given the ordered heading texts of one document, returns the parallel
/// list of assigned anchor slugs.  The duplicate counter lives entirely in
/// this call, so separate documents can never share or leak counts.
pub fn assign_slugs(texts: &Vec<String>) -> (slugs: Vec<String>)
    ensures
        slugs@.len() == texts@.len(),
        forall|i: int|
            0 <= i < texts@.len() ==> slugs@[i]@ == slug_at(
                base_slugs(string_views(texts@)),
                i,
            ),
        string_views(slugs@) == assigned_slugs(string_views(texts@)),
{
    let ghost bviews = base_slugs(string_views(texts@));
    let mut bases: Vec<String> = Vec::new();
    let mut slugs: Vec<String> = Vec::new();
    let mut i: usize = 0;
    while i < texts.len()
        invariant
            0 <= i <= texts@.len(),
            bviews == base_slugs(string_views(texts@)),
            bviews.len() == texts@.len(),
            bases@.len() == i,
            slugs@.len() == i,
            forall|k: int| 0 <= k < i ==> bases@[k]@ == bviews[k],
            forall|k: int| 0 <= k < i ==> slugs@[k]@ == slug_at(bviews, k),
        decreases texts@.len() - i,
    {
        let base = normalize_id(texts[i].as_str());
        proof {
            assert(string_views(texts@)[i as int] == texts@[i as int]@);
            assert(base@ == bviews[i as int]);
        }
        let mut c: usize = 0;
        let mut j: usize = 0;
        while j < i
            invariant
                0 <= j <= i <= texts@.len(),
                bviews.len() == texts@.len(),
                c <= j,
                bases@.len() == i,
                base@ == bviews[i as int],
                forall|k: int| 0 <= k < i ==> bases@[k]@ == bviews[k],
                c == count_eq(bviews.take(j as int), bviews[i as int]),
            decreases i - j,
        {
            let ghost pre = bviews.take(j as int);
            let eq = bases[j] == base;
            proof {
                assert(bviews.take(j as int + 1).drop_last() =~= pre);
                assert(bviews.take(j as int + 1).last() == bviews[j as int]);
            }
            if eq {
                c += 1;
            }
            j += 1;
        }
        let slug: String;
        if c > 0 {
            let mut s = base.clone();
            s.append("-");
            let num = usize_to_decimal(c);
            s.append(num.as_str());
            slug = s;
        } else {
            slug = base.clone();
        }
        bases.push(base);
        slugs.push(slug);
        i += 1;
    }
    proof {
        assert(string_views(slugs@) =~= assigned_slugs(string_views(texts@)));
    }
    slugs
}

} // verus!
