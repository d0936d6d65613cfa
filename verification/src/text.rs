//! Text helpers: equality, ASCII case mapping, trimming and ordering of
//! strings, over their views as sequences of characters.

use vstd::prelude::*;

verus! {

/// `char::is_whitespace`: the Unicode `White_Space` property.
pub open spec fn is_whitespace_spec(c: char) -> bool {
    ||| ('\u{9}' <= c && c <= '\u{d}')
    ||| c == ' '
    ||| c == '\u{85}'
    ||| c == '\u{a0}'
    ||| c == '\u{1680}'
    ||| ('\u{2000}' <= c && c <= '\u{200a}')
    ||| c == '\u{2028}'
    ||| c == '\u{2029}'
    ||| c == '\u{202f}'
    ||| c == '\u{205f}'
    ||| c == '\u{3000}'
}

pub open spec fn trim_start_spec(s: Seq<char>) -> Seq<char>
    decreases s.len(),
{
    if s.len() > 0 && is_whitespace_spec(s[0]) {
        trim_start_spec(s.drop_first())
    } else {
        s
    }
}

pub open spec fn trim_end_spec(s: Seq<char>) -> Seq<char>
    decreases s.len(),
{
    if s.len() > 0 && is_whitespace_spec(s.last()) {
        trim_end_spec(s.drop_last())
    } else {
        s
    }
}

/// `str::trim`: leading and trailing whitespace removed.
pub open spec fn trim_spec(s: Seq<char>) -> Seq<char> {
    trim_end_spec(trim_start_spec(s))
}

pub open spec fn ascii_upper_char(c: char) -> char {
    if 'a' <= c && c <= 'z' {
        ((c as u32) - 32) as char
    } else {
        c
    }
}

/// `str::to_ascii_uppercase`: ASCII letters upper-cased, other characters kept.
pub open spec fn ascii_upper_spec(s: Seq<char>) -> Seq<char> {
    Seq::new(s.len(), |i: int| ascii_upper_char(s[i]))
}

/// `str::trim`, as std documents it: whitespace (Unicode `White_Space`) at
/// both ends removed.
#[verifier::external_body]
pub(crate) fn trim(s: &str) -> (r: String)
    ensures
        r@ == trim_spec(s@),
{
    s.trim().to_string()
}

/// `str::to_ascii_uppercase`, as std documents it: `a`-`z` mapped to
/// `A`-`Z`, every other character unchanged.
#[verifier::external_body]
pub(crate) fn to_ascii_uppercase(s: &str) -> (r: String)
    ensures
        r@ == ascii_upper_spec(s@),
{
    s.to_ascii_uppercase()
}

/// Equality of two texts.
pub fn str_eq(a: &str, b: &str) -> (r: bool)
    ensures
        r == (a@ == b@),
{
    let n = a.unicode_len();
    if n != b.unicode_len() {
        return false;
    }
    let mut i: usize = 0;
    while i < n
        invariant
            n == a@.len(),
            n == b@.len(),
            i <= n,
            forall|j: int| 0 <= j < i ==> a@[j] == b@[j],
        decreases n - i,
    {
        if a.get_char(i) != b.get_char(i) {
            return false;
        }
        i = i + 1;
    }
    assert(a@ =~= b@);
    true
}

/// Equality of two texts ignoring ASCII case.
pub fn eq_ignore_ascii_case(a: &str, b: &str) -> (r: bool)
    ensures
        r == (ascii_upper_spec(a@) == ascii_upper_spec(b@)),
{
    let ua = to_ascii_uppercase(a);
    let ub = to_ascii_uppercase(b);
    str_eq(ua.as_str(), ub.as_str())
}

/// Lexicographic order of character sequences (the order of `str`'s `Ord`
/// for texts compared character by character).
pub open spec fn seq_lt(a: Seq<char>, b: Seq<char>) -> bool
    decreases a.len(),
{
    if a.len() == 0 {
        b.len() > 0
    } else if b.len() == 0 {
        false
    } else if a[0] != b[0] {
        a[0] < b[0]
    } else {
        seq_lt(a.drop_first(), b.drop_first())
    }
}

/// `a < b` in lexicographic character order.
pub fn str_lt(a: &str, b: &str) -> (r: bool)
    ensures
        r == seq_lt(a@, b@),
{
    let na = a.unicode_len();
    let nb = b.unicode_len();
    let mut i: usize = 0;
    assert(a@.skip(0) =~= a@);
    assert(b@.skip(0) =~= b@);
    while i < na && i < nb
        invariant
            na == a@.len(),
            nb == b@.len(),
            i <= na,
            i <= nb,
            forall|j: int| 0 <= j < i ==> a@[j] == b@[j],
            seq_lt(a@, b@) == seq_lt(a@.skip(i as int), b@.skip(i as int)),
        decreases na - i,
    {
        let ca = a.get_char(i);
        let cb = b.get_char(i);
        if ca != cb {
            proof {
                assert(a@.skip(i as int)[0] == ca);
                assert(b@.skip(i as int)[0] == cb);
            }
            return ca < cb;
        }
        proof {
            assert(a@.skip(i as int).drop_first() =~= a@.skip(i + 1));
            assert(b@.skip(i as int).drop_first() =~= b@.skip(i + 1));
        }
        i = i + 1;
    }
    proof {
        assert(a@.skip(i as int).len() == na - i);
        assert(b@.skip(i as int).len() == nb - i);
    }
    i == na && i < nb
}


pub proof fn lemma_seq_lt_irreflexive(a: Seq<char>)
    ensures
        !seq_lt(a, a),
    decreases a.len(),
{
    if a.len() > 0 {
        lemma_seq_lt_irreflexive(a.drop_first());
    }
}

pub proof fn lemma_seq_lt_asymmetric(a: Seq<char>, b: Seq<char>)
    requires
        seq_lt(a, b),
    ensures
        !seq_lt(b, a),
        a != b,
    decreases a.len(),
{
    if a == b {
        lemma_seq_lt_irreflexive(a);
    }
    if a.len() > 0 && b.len() > 0 && a[0] == b[0] {
        lemma_seq_lt_asymmetric(a.drop_first(), b.drop_first());
    }
}

pub proof fn lemma_seq_lt_total(a: Seq<char>, b: Seq<char>)
    ensures
        seq_lt(a, b) || a == b || seq_lt(b, a),
    decreases a.len(),
{
    if a.len() > 0 && b.len() > 0 && a[0] == b[0] {
        lemma_seq_lt_total(a.drop_first(), b.drop_first());
        if a.drop_first() == b.drop_first() {
            assert(a =~= seq![a[0]] + a.drop_first());
            assert(b =~= seq![b[0]] + b.drop_first());
        }
    } else if a.len() == 0 && b.len() == 0 {
        assert(a =~= b);
    } else if a.len() > 0 && b.len() > 0 {
        assert(a[0] != b[0]);
    }
}

pub proof fn lemma_seq_lt_transitive(a: Seq<char>, b: Seq<char>, c: Seq<char>)
    requires
        seq_lt(a, b),
        seq_lt(b, c),
    ensures
        seq_lt(a, c),
    decreases a.len(),
{
    if a.len() > 0 && b.len() > 0 && c.len() > 0 && a[0] == b[0] && b[0] == c[0] {
        lemma_seq_lt_transitive(a.drop_first(), b.drop_first(), c.drop_first());
    }
}

/// Texts in strictly ascending order (so each occurs once).
pub open spec fn strictly_sorted(v: Seq<String>) -> bool {
    forall|i: int, j: int| 0 <= i < j < v.len() ==> seq_lt(#[trigger] v[i]@, #[trigger] v[j]@)
}

pub open spec fn text_set(v: Seq<String>) -> Set<Seq<char>> {
    Set::new(|t: Seq<char>| exists|i: int| 0 <= i < v.len() && v[i]@ == t)
}

/// Inserts a text into a strictly sorted list unless it is already there.
pub fn insert_sorted(v: &mut Vec<String>, t: &str)
    requires
        strictly_sorted(old(v)@),
    ensures
        strictly_sorted(final(v)@),
        text_set(final(v)@) == text_set(old(v)@).insert(t@),
{
    let ghost v0 = v@;
    let mut p: usize = 0;
    while p < v.len() && str_lt(v[p].as_str(), t)
        invariant
            p <= v@.len(),
            v@ == v0,
            forall|j: int| 0 <= j < p ==> seq_lt((#[trigger] v@[j])@, t@),
        decreases v@.len() - p,
    {
        p = p + 1;
    }
    if p < v.len() && str_eq(v[p].as_str(), t) {
        proof {
            assert(text_set(v0).insert(t@) =~= text_set(v0)) by {
                assert(v0[p as int]@ == t@);
            }
        }
        return;
    }
    proof {
        if p < v0.len() {
            lemma_seq_lt_total(v0[p as int]@, t@);
        }
    }
    v.insert(p, String::from_str(t));
    proof {
        let w = v@;
        assert(w == v0.insert(p as int, w[p as int]));
        assert forall|i: int, j: int| 0 <= i < j < w.len() implies seq_lt(#[trigger] w[i]@, #[trigger] w[j]@) by {
            if j < p {
                assert(w[i] == v0[i] && w[j] == v0[j]);
            } else if j == p {
                assert(w[i] == v0[i]);
            } else if i == p {
                assert(w[j] == v0[j - 1]);
                if j - 1 > p {
                    assert(seq_lt(v0[p as int]@, v0[j - 1]@));
                    lemma_seq_lt_transitive(t@, v0[p as int]@, v0[j - 1]@);
                }
            } else if i < p {
                assert(w[i] == v0[i] && w[j] == v0[j - 1]);
                if j - 1 >= p {
                    if p < v0.len() {
                        lemma_seq_lt_transitive(v0[i]@, t@, v0[p as int]@);
                        if j - 1 > p {
                            assert(seq_lt(v0[p as int]@, v0[j - 1]@));
                            lemma_seq_lt_transitive(v0[i]@, v0[p as int]@, v0[j - 1]@);
                        }
                    }
                }
            } else {
                assert(w[i] == v0[i - 1] && w[j] == v0[j - 1]);
            }
        }
        assert forall|x: Seq<char>| text_set(w).contains(x) <==> text_set(v0).insert(t@).contains(x) by {
            if text_set(w).contains(x) {
                let i = choose|i: int| 0 <= i < w.len() && w[i]@ == x;
                if i < p {
                    assert(w[i] == v0[i]);
                } else if i > p {
                    assert(w[i] == v0[i - 1]);
                }
            }
            if text_set(v0).contains(x) {
                let i = choose|i: int| 0 <= i < v0.len() && v0[i]@ == x;
                if i < p {
                    assert(w[i] == v0[i]);
                } else {
                    assert(w[i + 1] == v0[i]);
                }
            }
            if x == t@ {
                assert(w[p as int]@ == t@);
            }
        }
        assert(text_set(w) =~= text_set(v0).insert(t@));
    }
}

} // verus!
