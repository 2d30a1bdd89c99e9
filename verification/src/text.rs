use vstd::prelude::*;

verus! {

broadcast use vstd::string::group_string_axioms;

/// `p` occurs in `s` starting at index `i`.
pub open spec fn occurs_at(s: Seq<char>, p: Seq<char>, i: int) -> bool {
    0 <= i && i + p.len() <= s.len() && s.subrange(i, i + p.len()) == p
}

/// `i` is the index of the first occurrence of `p` in `s`.
pub open spec fn first_occurrence(s: Seq<char>, p: Seq<char>, i: int) -> bool {
    occurs_at(s, p, i) && forall|j: int| 0 <= j < i ==> !occurs_at(s, p, j)
}

/// What `str::split_once` gives for the pattern `p`: the text before the first
/// occurrence of `p` and the text after it, or `None` when `p` does not occur.
pub open spec fn split_once_spec(s: Seq<char>, p: Seq<char>) -> Option<(Seq<char>, Seq<char>)> {
    if exists|i: int| first_occurrence(s, p, i) {
        let i = choose|i: int| first_occurrence(s, p, i);
        Some((s.take(i), s.skip(i + p.len())))
    } else {
        None
    }
}

/// The view of an optional pair of strings.
pub open spec fn pair_view(r: Option<(String, String)>) -> Option<(Seq<char>, Seq<char>)> {
    match r {
        Some((a, b)) => Some((a@, b@)),
        None => None,
    }
}

pub proof fn lemma_first_occurrence_unique(s: Seq<char>, p: Seq<char>, i: int, j: int)
    requires
        first_occurrence(s, p, i),
        first_occurrence(s, p, j),
    ensures
        i == j,
{
}

/// Splitting at the first occurrence of `p` and putting `p` back gives `s`.
pub proof fn lemma_split_once_rejoin(s: Seq<char>, p: Seq<char>)
    requires
        split_once_spec(s, p) matches Some((a, b)),
    ensures
        split_once_spec(s, p) matches Some((a, b)) && a + p + b == s,
{
    let i = choose|i: int| first_occurrence(s, p, i);
    assert(s.take(i) + p + s.skip(i + p.len()) =~= s);
}

/// When `a` holds no occurrence of the single character `c`, splitting
/// `a + [c] + b` at `c` gives back `a` and `b`.
pub proof fn lemma_split_once_char(a: Seq<char>, c: char, b: Seq<char>)
    requires
        !a.contains(c),
    ensures
        split_once_spec(a + seq![c] + b, seq![c]) == Some((a, b)),
{
    let s = a + seq![c] + b;
    let i = a.len() as int;
    assert(s.subrange(i, i + 1) =~= seq![c]);
    assert forall|j: int| 0 <= j < i implies !occurs_at(s, seq![c], j) by {
        if occurs_at(s, seq![c], j) {
            assert(s.subrange(j, j + 1)[0] == c);
            assert(a[j] == c);
        }
    }
    assert(first_occurrence(s, seq![c], i));
    let k = choose|k: int| first_occurrence(s, seq![c], k);
    lemma_first_occurrence_unique(s, seq![c], i, k);
    assert(s.take(i) =~= a);
    assert(s.skip(i + 1) =~= b);
}

/// The characters of `s`, in order.
pub fn chars_of(s: &str) -> (v: Vec<char>)
    ensures
        v@ == s@,
{
    let mut v: Vec<char> = Vec::new();
    for c in it: s.chars()
        invariant
            v@ == it.seq().take(it.index() as int),
    {
        v.push(c);
    }
    v
}

/// Does `p` occur in `s` at index `i`?
fn occurs_at_exec(s: &Vec<char>, p: &Vec<char>, i: usize) -> (r: bool)
    ensures
        r == occurs_at(s@, p@, i as int),
{
    if i > s.len() || p.len() > s.len() - i {
        return false;
    }
    let mut k: usize = 0;
    while k < p.len()
        invariant
            i + p@.len() <= s@.len(),
            s@.len() == s.len(),
            k <= p@.len(),
            forall|m: int| 0 <= m < k ==> s@[i + m] == p@[m],
        decreases p@.len() - k,
    {
        if s[i + k] != p[k] {
            assert(s@.subrange(i as int, i + p@.len())[k as int] != p@[k as int]);
            return false;
        }
        k = k + 1;
    }
    assert(s@.subrange(i as int, i + p@.len()) =~= p@);
    true
}

/// The index of the first occurrence of `p` in `s`.
fn find_first(s: &Vec<char>, p: &Vec<char>) -> (r: Option<usize>)
    ensures
        match r {
            Some(i) => first_occurrence(s@, p@, i as int),
            None => forall|i: int| !occurs_at(s@, p@, i),
        },
{
    let mut i: usize = 0;
    loop
        invariant
            i <= s.len(),
            forall|j: int| 0 <= j < i ==> !occurs_at(s@, p@, j),
        decreases s@.len() - i,
    {
        if occurs_at_exec(s, p, i) {
            return Some(i);
        }
        if i == s.len() {
            assert forall|j: int| !occurs_at(s@, p@, j) by {
                if 0 <= j <= i {
                }
            }
            return None;
        }
        i = i + 1;
    }
}

/// `str::split_once`: the text before and after the first occurrence of `pat`.
pub fn split_once(s: &str, pat: &str) -> (r: Option<(String, String)>)
    ensures
        pair_view(r) == split_once_spec(s@, pat@),
{
    let sv = chars_of(s);
    let pv = chars_of(pat);
    match find_first(&sv, &pv) {
        Some(i) => {
            proof {
                let k = choose|k: int| first_occurrence(s@, pat@, k);
                lemma_first_occurrence_unique(s@, pat@, i as int, k);
            }
            assert(i + pv.len() <= sv.len());
            let before = s.substring_char(0, i).to_owned();
            let after = s.substring_char(i + pv.len(), sv.len()).to_owned();
            assert(after@ =~= s@.skip(i + pat@.len()));
            Some((before, after))
        },
        None => {
            assert(!exists|i: int| first_occurrence(s@, pat@, i));
            None
        },
    }
}

/// Character-wise equality of two strings.
pub fn str_eq(a: &str, b: &str) -> (r: bool)
    ensures
        r == (a@ == b@),
{
    let av = chars_of(a);
    let bv = chars_of(b);
    if av.len() != bv.len() {
        return false;
    }
    let mut i: usize = 0;
    while i < av.len()
        invariant
            av@ == a@,
            bv@ == b@,
            av@.len() == bv@.len(),
            i <= av@.len(),
            forall|j: int| 0 <= j < i ==> av@[j] == bv@[j],
        decreases av@.len() - i,
    {
        if av[i] != bv[i] {
            return false;
        }
        i = i + 1;
    }
    assert(a@ =~= b@);
    true
}

/// The character of the decimal digit `d`.
pub open spec fn digit_char(d: nat) -> char {
    (48 + d) as char
}

/// The decimal notation of `n`, without leading zeros.
pub open spec fn decimal(n: nat) -> Seq<char>
    decreases n,
{
    if n < 10 {
        seq![digit_char(n)]
    } else {
        decimal(n / 10) + seq![digit_char(n % 10)]
    }
}

/// Appends the decimal notation of `n` to `out`.
pub fn append_decimal(out: &mut String, n: u16)
    ensures
        final(out)@ == old(out)@ + decimal(n as nat),
    decreases n,
{
    if n >= 10 {
        append_decimal(out, n / 10);
    }
    proof {
        reveal_strlit("0123456789");
    }
    let digits = "0123456789";
    assert(digits@ =~= seq!['0', '1', '2', '3', '4', '5', '6', '7', '8', '9']);
    let d: usize = (n % 10) as usize;
    let ghost before = out@;
    out.append(digits.substring_char(d, d + 1));
    assert(digits@.subrange(d as int, d + 1) =~= seq![digit_char(d as nat)]);
    assert(out@ =~= before + seq![digit_char((n % 10) as nat)]);
}

/// `split_once_spec` splits at the first place where `p` occurs: the text
/// before, `p` and the text after make up `s`, and `p` occurs nowhere that
/// starts before the split; where `p` occurs nowhere there is no split.
pub proof fn split_once_splits_at_first_match(s: Seq<char>, p: Seq<char>)
    ensures
        match split_once_spec(s, p) {
            Some((a, b)) => a + p + b == s && forall|j: int|
                0 <= j < a.len() && j + p.len() <= s.len() ==> #[trigger] s.subrange(j, j + p.len()) != p,
            None => forall|j: int| 0 <= j && j + p.len() <= s.len() ==> #[trigger] s.subrange(j, j + p.len()) != p,
        },
{
    if split_once_spec(s, p) is Some {
        lemma_split_once_rejoin(s, p);
        let i = choose|i: int| first_occurrence(s, p, i);
        assert forall|j: int| 0 <= j < s.take(i).len() && j + p.len() <= s.len() implies #[trigger] s.subrange(
            j,
            j + p.len(),
        ) != p by {
            assert(!occurs_at(s, p, j));
        }
    } else {
        assert forall|j: int| 0 <= j && j + p.len() <= s.len() implies #[trigger] s.subrange(j, j + p.len()) != p by {
            if s.subrange(j, j + p.len()) == p {
                assert(occurs_at(s, p, j));
                lemma_some_first_occurrence(s, p, j);
            }
        }
    }
}

/// Where `p` occurs somewhere in `s`, it has a first occurrence.
pub proof fn lemma_some_first_occurrence(s: Seq<char>, p: Seq<char>, j: int)
    requires
        occurs_at(s, p, j),
    ensures
        exists|i: int| first_occurrence(s, p, i),
    decreases j,
{
    if forall|k: int| 0 <= k < j ==> !occurs_at(s, p, k) {
        assert(first_occurrence(s, p, j));
    } else {
        let k = choose|k: int| 0 <= k < j && occurs_at(s, p, k);
        lemma_some_first_occurrence(s, p, k);
    }
}

/// The number that a string of decimal digits denotes.
pub open spec fn decimal_value(s: Seq<char>) -> int
    decreases s.len(),
{
    if s.len() == 0 {
        0
    } else {
        decimal_value(s.drop_last()) * 10 + (s.last() as int - 48)
    }
}

/// `decimal(n)` is the usual decimal notation of `n`: one or more digits
/// that denote `n`, with no leading zero unless `n` is zero.
pub proof fn decimal_notation(n: nat)
    ensures
        decimal(n).len() > 0,
        forall|i: int| 0 <= i < decimal(n).len() ==> '0' <= #[trigger] decimal(n)[i] && decimal(n)[i] <= '9',
        decimal_value(decimal(n)) == n,
        decimal(n)[0] == '0' ==> n == 0,
    decreases n,
{
    if n < 10 {
        assert(digit_char(n) as int == 48 + n);
        assert(decimal(n).drop_last() =~= Seq::<char>::empty());
        assert(decimal_value(Seq::<char>::empty()) == 0);
        assert(decimal_value(decimal(n)) == decimal_value(decimal(n).drop_last()) * 10 + (decimal(n).last() as int - 48));
    } else {
        decimal_notation(n / 10);
        let d = decimal(n);
        assert(d.drop_last() =~= decimal(n / 10));
        assert(digit_char(n % 10) as int == 48 + n % 10);
        assert((n / 10) * 10 + n % 10 == n) by (nonlinear_arith);
        assert(d.last() == digit_char(n % 10));
        assert(decimal_value(d) == decimal_value(d.drop_last()) * 10 + (d.last() as int - 48));
        assert(decimal_value(d) == decimal_value(decimal(n / 10)) * 10 + (n % 10));
        assert forall|i: int| 0 <= i < d.len() implies '0' <= #[trigger] d[i] && d[i] <= '9' by {
            if i < d.len() - 1 {
                assert(d[i] == decimal(n / 10)[i]);
            }
        }
        assert(d[0] == decimal(n / 10)[0]);
    }
}

} // verus!
